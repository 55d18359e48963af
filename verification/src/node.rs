//! Nodes of the syntax tree.
use vstd::prelude::*;
use crate::token::{CompileError, Token, error_tok, error_msg};
use crate::typecell::{TypeCell, spec_type_string};
use crate::utils::{decimal, push_chars, push_i64, push_str, push_u64, signed_decimal};
use crate::grammar::shape;

verus! {

/// The kind of a node.
#[derive(Clone, Copy, Debug, PartialEq, Eq, Structural)]
pub enum Nodekind {
    DefaultNd,
    AddNd,
    SubNd,
    MulNd,
    DivNd,
    ModNd,
    LShiftNd,
    RShiftNd,
    BitAndNd,
    BitOrNd,
    BitXorNd,
    BitNotNd,
    LogAndNd,
    LogOrNd,
    LogNotNd,
    AssignNd,
    LvarNd,
    CastNd,
    NumNd,
    AddrNd,
    DerefNd,
    EqNd,
    NEqNd,
    LThanNd,
    LEqNd,
    IfNd,
    ForNd,
    WhileNd,
    ReturnNd,
    BlockNd,
    CommaNd,
    FunCallNd,
    GlobalNd,
    ZeroClrNd,
    NopNd,
}

/// A node of the syntax tree. `token` is the position, in the token stream, of the token the
/// node was made for (temporary nodes have none).
#[derive(Debug)]
pub struct Node {
    pub kind: Nodekind,
    pub token: Option<usize>,
    pub typ: Option<TypeCell>,
    pub val: Option<i32>,
    pub offset: Option<usize>,
    pub left: Option<Box<Node>>,
    pub right: Option<Box<Node>>,
    pub init: Option<Box<Node>>,
    pub enter: Option<Box<Node>>,
    pub routine: Option<Box<Node>>,
    pub branch: Option<Box<Node>>,
    pub els: Option<Box<Node>>,
    pub children: Vec<Node>,
    pub name: Option<Vec<char>>,
    pub init_data: Vec<InitData>,
    pub func_typ: Option<TypeCell>,
    pub args: Vec<Node>,
    pub stmts: Option<Vec<Node>>,
    pub max_offset: Option<usize>,
    pub is_local: bool,
    pub level: Option<usize>,
}

/// One item of the initial value of a global variable: `size` bytes holding `val`, or the
/// address of `label` plus `val`.
#[derive(Debug)]
pub struct InitData {
    pub size: usize,
    pub val: i64,
    pub label: Option<Vec<char>>,
}

impl InitData {
    /// An item of `size` bytes holding `val` (plus the address of `label`, if any).
    pub fn new(size: usize, val: i64, label: Option<Vec<char>>) -> (r: Self)
        ensures
            r.size == size,
            r.val == val,
            r.label == label,
    {
        InitData { size, val, label }
    }
}

/// A node of kind `kind` with nothing else set.
pub open spec fn is_blank(n: Node, kind: Nodekind) -> bool {
    &&& n.kind == kind
    &&& n.token is None
    &&& n.typ is None
    &&& n.val is None
    &&& n.offset is None
    &&& n.left is None
    &&& n.right is None
    &&& n.init is None
    &&& n.enter is None
    &&& n.routine is None
    &&& n.branch is None
    &&& n.els is None
    &&& n.children@.len() == 0
    &&& n.name is None
    &&& n.init_data@.len() == 0
    &&& n.func_typ is None
    &&& n.args@.len() == 0
    &&& n.stmts is None
    &&& n.max_offset is None
    &&& !n.is_local
    &&& n.level is None
}

impl Node {
    /// A node of kind `kind` with nothing else set.
    pub fn blank(kind: Nodekind) -> (r: Node)
        ensures
            is_blank(r, kind),
    {
        Node {
            kind,
            token: None,
            typ: None,
            val: None,
            offset: None,
            left: None,
            right: None,
            init: None,
            enter: None,
            routine: None,
            branch: None,
            els: None,
            children: Vec::new(),
            name: None,
            init_data: Vec::new(),
            func_typ: None,
            args: Vec::new(),
            stmts: None,
            max_offset: None,
            is_local: false,
            level: None,
        }
    }
}

impl Default for Node {
    fn default() -> (r: Node)
        ensures
            is_blank(r, Nodekind::DefaultNd),
    {
        Node::blank(Nodekind::DefaultNd)
    }
}

/// The error `msg` at the token of `node` (an error with no place when the node has none).
pub fn error_nod(msg: &str, node: &Node, tokens: &Vec<Token>) -> (e: CompileError)
    ensures
        e.msg@ == msg@,
        node.token is Some && node.token.unwrap() < tokens@.len() ==> e.has_pos && e.line_num
            == tokens@[node.token.unwrap() as int].line_num && e.line_offset == tokens@[node.token.unwrap() as int].line_offset,
        !(node.token is Some && node.token.unwrap() < tokens@.len()) ==> !e.has_pos,
{
    match node.token {
        Some(i) => {
            if i < tokens.len() {
                error_tok(msg, &tokens[i])
            } else {
                error_msg(msg)
            }
        },
        None => error_msg(msg),
    }
}


/// A copy of an optional boxed node.
fn copy_opt(n: &Option<Box<Node>>) -> (r: Option<Box<Node>>)
    ensures
        r is Some == n is Some,
        r is Some ==> shape(*r.unwrap()) == shape(*n.unwrap()),
        r is Some ==> r.unwrap().typ == n.unwrap().typ && r.unwrap().kind == n.unwrap().kind,
    decreases n,
{
    match n {
        Some(b) => {
            proof {
                assert(decreases_to!(n => n->0));
            }
            Some(Box::new(b.copy()))
        },
        None => None,
    }
}

/// Copies of the nodes of `v`, in order.
fn copy_nodes(v: &Vec<Node>) -> (r: Vec<Node>)
    ensures
        r@.len() == v@.len(),
        forall|i: int| 0 <= i < v@.len() ==> (#[trigger] r@[i]).kind == v@[i].kind,
    decreases v,
{
    let mut w: Vec<Node> = Vec::new();
    let mut i: usize = 0;
    while i < v.len()
        invariant
            i <= v@.len(),
            w@.len() == i,
            forall|k: int| 0 <= k < i ==> (#[trigger] w@[k]).kind == v@[k].kind,
        decreases v.len() - i,
    {
        proof {
            assert(decreases_to!(v => v@));
            assert(decreases_to!(v@ => v@[i as int]));
        }
        w.push(v[i].copy());
        i = i + 1;
    }
    w
}

/// Copies of the items of `v`, in order.
fn copy_init_data(v: &Vec<InitData>) -> (r: Vec<InitData>)
    ensures
        r@.len() == v@.len(),
{
    let mut w: Vec<InitData> = Vec::new();
    let mut i: usize = 0;
    while i < v.len()
        invariant
            i <= v@.len(),
            w@.len() == i,
        decreases v.len() - i,
    {
        let d = &v[i];
        let label = match &d.label {
            Some(l) => Some(crate::utils::copy_chars(l)),
            None => None,
        };
        w.push(InitData { size: d.size, val: d.val, label });
        i = i + 1;
    }
    w
}

impl Node {
    /// A copy of this node and everything below it.
    pub fn copy(&self) -> (r: Node)
        ensures
            r.kind == self.kind,
            r.token == self.token,
            r.typ == self.typ,
            r.val == self.val,
            r.offset == self.offset,
            r.is_local == self.is_local,
            r.left is Some == self.left is Some,
            r.right is Some == self.right is Some,
            r.init is Some == self.init is Some,
            r.enter is Some == self.enter is Some,
            r.routine is Some == self.routine is Some,
            r.branch is Some == self.branch is Some,
            r.els is Some == self.els is Some,
            r.left is Some ==> r.left.unwrap().typ == self.left.unwrap().typ && r.left.unwrap().kind
                == self.left.unwrap().kind,
            shape(r) == shape(*self),
        decreases self,
    {
        let typ = match &self.typ {
            Some(t) => Some(t.copy()),
            None => None,
        };
        let func_typ = match &self.func_typ {
            Some(t) => Some(t.copy()),
            None => None,
        };
        let name = match &self.name {
            Some(n) => Some(crate::utils::copy_chars(n)),
            None => None,
        };
        proof {
            assert(decreases_to!(*self => self.left));
            assert(decreases_to!(*self => self.right));
            assert(decreases_to!(*self => self.init));
            assert(decreases_to!(*self => self.enter));
            assert(decreases_to!(*self => self.routine));
            assert(decreases_to!(*self => self.branch));
            assert(decreases_to!(*self => self.els));
            assert(decreases_to!(*self => self.children));
            assert(decreases_to!(*self => self.args));
        }
        let stmts = match &self.stmts {
            Some(v) => {
                proof {
                    assert(decreases_to!(*self => self.stmts));
                    assert(decreases_to!(self.stmts => self.stmts->0));
                }
                Some(copy_nodes(v))
            },
            None => None,
        };
        Node {
            kind: self.kind,
            token: self.token,
            typ,
            val: self.val,
            offset: self.offset,
            left: copy_opt(&self.left),
            right: copy_opt(&self.right),
            init: copy_opt(&self.init),
            enter: copy_opt(&self.enter),
            routine: copy_opt(&self.routine),
            branch: copy_opt(&self.branch),
            els: copy_opt(&self.els),
            children: copy_nodes(&self.children),
            name,
            init_data: copy_init_data(&self.init_data),
            func_typ,
            args: copy_nodes(&self.args),
            stmts,
            max_offset: self.max_offset,
            is_local: self.is_local,
            level: self.level,
        }
    }
}


/// The name of a node kind.
pub open spec fn spec_nodekind_name(k: Nodekind) -> Seq<char> {
    match k {
        Nodekind::DefaultNd => "DefaultNd"@,
        Nodekind::AddNd => "AddNd"@,
        Nodekind::SubNd => "SubNd"@,
        Nodekind::MulNd => "MulNd"@,
        Nodekind::DivNd => "DivNd"@,
        Nodekind::ModNd => "ModNd"@,
        Nodekind::LShiftNd => "LShiftNd"@,
        Nodekind::RShiftNd => "RShiftNd"@,
        Nodekind::BitAndNd => "BitAndNd"@,
        Nodekind::BitOrNd => "BitOrNd"@,
        Nodekind::BitXorNd => "BitXorNd"@,
        Nodekind::BitNotNd => "BitNotNd"@,
        Nodekind::LogAndNd => "LogAndNd"@,
        Nodekind::LogOrNd => "LogOrNd"@,
        Nodekind::LogNotNd => "LogNotNd"@,
        Nodekind::AssignNd => "AssignNd"@,
        Nodekind::LvarNd => "LvarNd"@,
        Nodekind::CastNd => "CastNd"@,
        Nodekind::NumNd => "NumNd"@,
        Nodekind::AddrNd => "AddrNd"@,
        Nodekind::DerefNd => "DerefNd"@,
        Nodekind::EqNd => "EqNd"@,
        Nodekind::NEqNd => "NEqNd"@,
        Nodekind::LThanNd => "LThanNd"@,
        Nodekind::LEqNd => "LEqNd"@,
        Nodekind::IfNd => "IfNd"@,
        Nodekind::ForNd => "ForNd"@,
        Nodekind::WhileNd => "WhileNd"@,
        Nodekind::ReturnNd => "ReturnNd"@,
        Nodekind::BlockNd => "BlockNd"@,
        Nodekind::CommaNd => "CommaNd"@,
        Nodekind::FunCallNd => "FunCallNd"@,
        Nodekind::GlobalNd => "GlobalNd"@,
        Nodekind::ZeroClrNd => "ZeroClrNd"@,
        Nodekind::NopNd => "NopNd"@,
    }
}

/// The name of a node kind.
pub fn nodekind_name(k: Nodekind) -> (r: &'static str)
    ensures
        r@ == spec_nodekind_name(k),
{
    match k {
        Nodekind::DefaultNd => "DefaultNd",
        Nodekind::AddNd => "AddNd",
        Nodekind::SubNd => "SubNd",
        Nodekind::MulNd => "MulNd",
        Nodekind::DivNd => "DivNd",
        Nodekind::ModNd => "ModNd",
        Nodekind::LShiftNd => "LShiftNd",
        Nodekind::RShiftNd => "RShiftNd",
        Nodekind::BitAndNd => "BitAndNd",
        Nodekind::BitOrNd => "BitOrNd",
        Nodekind::BitXorNd => "BitXorNd",
        Nodekind::BitNotNd => "BitNotNd",
        Nodekind::LogAndNd => "LogAndNd",
        Nodekind::LogOrNd => "LogOrNd",
        Nodekind::LogNotNd => "LogNotNd",
        Nodekind::AssignNd => "AssignNd",
        Nodekind::LvarNd => "LvarNd",
        Nodekind::CastNd => "CastNd",
        Nodekind::NumNd => "NumNd",
        Nodekind::AddrNd => "AddrNd",
        Nodekind::DerefNd => "DerefNd",
        Nodekind::EqNd => "EqNd",
        Nodekind::NEqNd => "NEqNd",
        Nodekind::LThanNd => "LThanNd",
        Nodekind::LEqNd => "LEqNd",
        Nodekind::IfNd => "IfNd",
        Nodekind::ForNd => "ForNd",
        Nodekind::WhileNd => "WhileNd",
        Nodekind::ReturnNd => "ReturnNd",
        Nodekind::BlockNd => "BlockNd",
        Nodekind::CommaNd => "CommaNd",
        Nodekind::FunCallNd => "FunCallNd",
        Nodekind::GlobalNd => "GlobalNd",
        Nodekind::ZeroClrNd => "ZeroClrNd",
        Nodekind::NopNd => "NopNd",
    }
}

/// The text of an initial-value item: `[size, val] = [4, 1]`, or with the label
/// `[size, val, label] = [8, 0, .LC0]`.
pub open spec fn spec_init_data_text(d: InitData) -> Seq<char> {
    match d.label {
        Some(l) => "[size, val, label] = ["@ + decimal(d.size as nat) + ", "@ + signed_decimal(d.val as int)
            + ", "@ + l@ + "]"@,
        None => "[size, val] = ["@ + decimal(d.size as nat) + ", "@ + signed_decimal(d.val as int) + "]"@,
    }
}

impl InitData {
    /// The text of this item, as the syntax tree listing shows it.
    pub fn text(&self) -> (r: Vec<char>)
        ensures
            r@ == spec_init_data_text(*self),
    {
        let mut out: Vec<char> = Vec::new();
        match &self.label {
            Some(l) => {
                push_str(&mut out, "[size, val, label] = [");
                push_u64(&mut out, self.size as u64);
                push_str(&mut out, ", ");
                push_i64(&mut out, self.val);
                push_str(&mut out, ", ");
                push_chars(&mut out, l);
                push_str(&mut out, "]");
            },
            None => {
                push_str(&mut out, "[size, val] = [");
                push_u64(&mut out, self.size as u64);
                push_str(&mut out, ", ");
                push_i64(&mut out, self.val);
                push_str(&mut out, "]");
            },
        }
        proof {
            assert(out@ =~= spec_init_data_text(*self));
        }
        out
    }
}

/// The line `label: exist(kind:K)` for an operand that is there, nothing otherwise.
pub open spec fn child_line(label: Seq<char>, c: Option<Box<Node>>) -> Seq<char> {
    match c {
        Some(n) => label + ": exist(kind:"@ + spec_nodekind_name(n.kind) + ")\n"@,
        None => Seq::empty(),
    }
}

/// The lines `->kind:K`, one per node of `v`.
pub open spec fn kind_lines(v: Seq<Node>) -> Seq<char>
    decreases v.len(),
{
    if v.len() == 0 {
        Seq::empty()
    } else {
        kind_lines(v.drop_last()) + "->kind:"@ + spec_nodekind_name(v.last().kind) + "\n"@
    }
}

/// The lines of the initial-value items of `v`.
pub open spec fn data_lines(v: Seq<InitData>) -> Seq<char>
    decreases v.len(),
{
    if v.len() == 0 {
        Seq::empty()
    } else {
        data_lines(v.drop_last()) + spec_init_data_text(v.last()) + "\n"@
    }
}

/// The line of the token a node was made for, when it is one of `tokens`.
pub open spec fn token_line(t: Option<usize>, tokens: Seq<Token>) -> Seq<char> {
    if t is Some && t.unwrap() < tokens.len() {
        let tok = tokens[t.unwrap() as int];
        let pos = "["@ + decimal(tok.line_num as nat) + ", "@ + decimal(tok.line_offset as nat) + "]\n"@;
        match tok.body {
            Some(b) => "token: \""@ + b@ + "\" "@ + pos,
            None => "token: "@ + pos,
        }
    } else {
        Seq::empty()
    }
}

/// The line `label: value` for a number that is there, nothing otherwise.
pub open spec fn num_line(label: Seq<char>, v: Option<usize>) -> Seq<char> {
    match v {
        Some(n) => label + ": "@ + decimal(n as nat) + "\n"@,
        None => Seq::empty(),
    }
}

/// The header of a node: a rule, then its kind (and for a variable, whether it is local).
pub open spec fn node_head(n: Node) -> Seq<char> {
    "----------------------------------------\n"@ + "Nodekind : "@ + spec_nodekind_name(n.kind) + (if n.kind
        == Nodekind::LvarNd {
        if n.is_local {
            "<Local>"@
        } else {
            "<Global>"@
        }
    } else {
        Seq::empty()
    }) + "\n"@
}

/// The line `label: T` for a type that is there, nothing otherwise.
pub open spec fn type_line(label: Seq<char>, t: Option<TypeCell>) -> Seq<char> {
    match t {
        Some(t) => label + ": "@ + spec_type_string(t, Seq::empty()) + "\n"@,
        None => Seq::empty(),
    }
}

/// The line `val: v` for a value that is there, nothing otherwise.
pub open spec fn val_line(v: Option<i32>) -> Seq<char> {
    match v {
        Some(v) => "val: "@ + signed_decimal(v as int) + "\n"@,
        None => Seq::empty(),
    }
}

/// The line `name: s` for a name that is there, nothing otherwise.
pub open spec fn name_line(n: Option<Vec<char>>) -> Seq<char> {
    match n {
        Some(s) => "name: "@ + s@ + "\n"@,
        None => Seq::empty(),
    }
}

/// The line `header` followed by the kinds of `v`, when `v` is not empty.
pub open spec fn kinds_block(header: Seq<char>, v: Seq<Node>) -> Seq<char> {
    if v.len() > 0 {
        header + kind_lines(v)
    } else {
        Seq::empty()
    }
}

/// The line giving the number of statements of a function body, when there is one.
pub open spec fn stmts_line(v: Option<Vec<Node>>) -> Seq<char> {
    match v {
        Some(v) => "stmts: exist("@ + decimal(v@.len()) + ")\n"@,
        None => Seq::empty(),
    }
}

/// The initial-value items, when there are any.
pub open spec fn data_block(v: Seq<InitData>) -> Seq<char> {
    if v.len() > 0 {
        "init_data: exist\n"@ + data_lines(v)
    } else {
        Seq::empty()
    }
}

/// The lines of a node about itself: scope level, type, token, value, name and offset.
pub open spec fn node_attrs(n: Node, tokens: Seq<Token>) -> Seq<char> {
    num_line("scope level"@, n.level) + type_line("type"@, n.typ) + token_line(n.token, tokens) + val_line(n.val)
        + name_line(n.name) + num_line("offset"@, n.offset)
}

/// The lines of a node about what hangs below it.
pub open spec fn node_links(n: Node) -> Seq<char> {
    child_line("left"@, n.left) + child_line("right"@, n.right) + child_line("init"@, n.init)
        + child_line("enter"@, n.enter) + child_line("routine"@, n.routine) + child_line("branch"@, n.branch)
        + child_line("els"@, n.els) + kinds_block("children: exist\n"@, n.children@)
}

/// The lines of a node about functions and initial values.
pub open spec fn node_decl(n: Node) -> Seq<char> {
    type_line("function type"@, n.func_typ) + kinds_block("args: exist\n"@, n.args@) + stmts_line(n.stmts)
        + num_line("max_offset"@, n.max_offset) + data_block(n.init_data@)
}

/// The listing of a node: its own fields that are set, and the kinds of the nodes below it.
pub open spec fn spec_node_text(n: Node, tokens: Seq<Token>) -> Seq<char> {
    node_head(n) + node_attrs(n, tokens) + node_links(n) + node_decl(n)
}

/// Writes `label: exist(kind:K)` for an operand that is there.
fn push_child_line(out: &mut Vec<char>, label: &str, c: &Option<Box<Node>>)
    ensures
        final(out)@ == old(out)@ + child_line(label@, *c),
{
    match c {
        Some(n) => {
            push_str(out, label);
            push_str(out, ": exist(kind:");
            push_str(out, nodekind_name(n.kind));
            push_str(out, ")\n");
            proof {
                assert(out@ =~= old(out)@ + child_line(label@, *c));
            }
        },
        None => {
            proof {
                assert(out@ =~= old(out)@ + child_line(label@, *c));
            }
        },
    }
}

/// Writes `->kind:K` for each node of `v`.
fn push_kind_lines(out: &mut Vec<char>, v: &Vec<Node>)
    ensures
        final(out)@ == old(out)@ + kind_lines(v@),
{
    let mut i: usize = 0;
    while i < v.len()
        invariant
            i <= v@.len(),
            out@ == old(out)@ + kind_lines(v@.subrange(0, i as int)),
        decreases v.len() - i,
    {
        push_str(out, "->kind:");
        push_str(out, nodekind_name(v[i].kind));
        push_str(out, "\n");
        proof {
            let pre = v@.subrange(0, i + 1);
            assert(pre.drop_last() =~= v@.subrange(0, i as int));
            assert(out@ =~= old(out)@ + kind_lines(pre));
        }
        i = i + 1;
    }
    proof {
        assert(v@.subrange(0, v@.len() as int) =~= v@);
    }
}

/// Writes `label: n` for a number that is there.
fn push_num_line(out: &mut Vec<char>, label: &str, v: Option<usize>)
    ensures
        final(out)@ == old(out)@ + num_line(label@, v),
{
    if let Some(n) = v {
        push_str(out, label);
        push_str(out, ": ");
        push_u64(out, n as u64);
        push_str(out, "\n");
    }
    proof {
        assert(out@ =~= old(out)@ + num_line(label@, v));
    }
}

impl Node {
    /// The listing of this node (`tokens` are those it points into): its own fields that are
    /// set, one per line, and the kinds of the nodes below it.
    pub fn text(&self, tokens: &Vec<Token>) -> (r: Vec<char>)
        ensures
            r@ == spec_node_text(*self, tokens@),
    {
        let mut out: Vec<char> = Vec::new();
        push_str(&mut out, "----------------------------------------\n");
        push_str(&mut out, "Nodekind : ");
        push_str(&mut out, nodekind_name(self.kind));
        if self.kind == Nodekind::LvarNd {
            if self.is_local {
                push_str(&mut out, "<Local>");
            } else {
                push_str(&mut out, "<Global>");
            }
        }
        push_str(&mut out, "\n");
        proof {
            assert(out@ =~= node_head(*self));
        }
        let ghost head = out@;
        self.push_attrs(&mut out, tokens);
        let ghost attrs = out@;
        self.push_links(&mut out);
        let ghost links = out@;
        self.push_decl(&mut out);
        proof {
            assert(out@ =~= spec_node_text(*self, tokens@));
        }
        out
    }

    fn push_attrs(&self, out: &mut Vec<char>, tokens: &Vec<Token>)
        ensures
            final(out)@ == old(out)@ + node_attrs(*self, tokens@),
    {
        push_num_line(out, "scope level", self.level);
        push_type_line(out, "type", &self.typ);
        push_token_line(out, self.token, tokens);
        push_val_line(out, self.val);
        push_name_line(out, &self.name);
        push_num_line(out, "offset", self.offset);
        proof {
            assert(out@ =~= old(out)@ + node_attrs(*self, tokens@));
        }
    }

    fn push_links(&self, out: &mut Vec<char>)
        ensures
            final(out)@ == old(out)@ + node_links(*self),
    {
        push_child_line(out, "left", &self.left);
        push_child_line(out, "right", &self.right);
        push_child_line(out, "init", &self.init);
        push_child_line(out, "enter", &self.enter);
        push_child_line(out, "routine", &self.routine);
        push_child_line(out, "branch", &self.branch);
        push_child_line(out, "els", &self.els);
        push_kinds_block(out, "children: exist\n", &self.children);
        proof {
            assert(out@ =~= old(out)@ + node_links(*self));
        }
    }

    fn push_decl(&self, out: &mut Vec<char>)
        ensures
            final(out)@ == old(out)@ + node_decl(*self),
    {
        push_type_line(out, "function type", &self.func_typ);
        push_kinds_block(out, "args: exist\n", &self.args);
        push_stmts_line(out, &self.stmts);
        push_num_line(out, "max_offset", self.max_offset);
        push_data_block(out, &self.init_data);
        proof {
            assert(out@ =~= old(out)@ + node_decl(*self));
        }
    }
}

/// Writes `label: T` for a type that is there.
fn push_type_line(out: &mut Vec<char>, label: &str, t: &Option<TypeCell>)
    ensures
        final(out)@ == old(out)@ + type_line(label@, *t),
{
    if let Some(t) = t {
        push_str(out, label);
        push_str(out, ": ");
        let ts = t.type_string();
        push_chars(out, &ts);
        push_str(out, "\n");
    }
    proof {
        assert(out@ =~= old(out)@ + type_line(label@, *t));
    }
}

/// Writes the line of the token a node was made for.
fn push_token_line(out: &mut Vec<char>, token: Option<usize>, tokens: &Vec<Token>)
    ensures
        final(out)@ == old(out)@ + token_line(token, tokens@),
{
    if let Some(ix) = token {
        if ix < tokens.len() {
            let tok = &tokens[ix];
            match &tok.body {
                Some(body) => {
                    push_str(out, "token: \"");
                    push_chars(out, body);
                    push_str(out, "\" ");
                },
                None => {
                    push_str(out, "token: ");
                },
            }
            let ghost mid = out@;
            push_str(out, "[");
            push_u64(out, tok.line_num as u64);
            push_str(out, ", ");
            push_u64(out, tok.line_offset as u64);
            push_str(out, "]\n");
            proof {
                let pos = "["@ + decimal(tok.line_num as nat) + ", "@ + decimal(tok.line_offset as nat) + "]\n"@;
                assert(out@ =~= mid + pos);
            }
        }
    }
    proof {
        assert(out@ =~= old(out)@ + token_line(token, tokens@));
    }
}

/// Writes `val: v` for a value that is there.
fn push_val_line(out: &mut Vec<char>, v: Option<i32>)
    ensures
        final(out)@ == old(out)@ + val_line(v),
{
    if let Some(v) = v {
        push_str(out, "val: ");
        push_i64(out, v as i64);
        push_str(out, "\n");
    }
    proof {
        assert(out@ =~= old(out)@ + val_line(v));
    }
}

/// Writes `name: s` for a name that is there.
fn push_name_line(out: &mut Vec<char>, n: &Option<Vec<char>>)
    ensures
        final(out)@ == old(out)@ + name_line(*n),
{
    if let Some(name) = n {
        push_str(out, "name: ");
        push_chars(out, name);
        push_str(out, "\n");
    }
    proof {
        assert(out@ =~= old(out)@ + name_line(*n));
    }
}

/// Writes `header` and the kinds of `v`, when `v` is not empty.
fn push_kinds_block(out: &mut Vec<char>, header: &str, v: &Vec<Node>)
    ensures
        final(out)@ == old(out)@ + kinds_block(header@, v@),
{
    if v.len() > 0 {
        push_str(out, header);
        push_kind_lines(out, v);
    }
    proof {
        assert(out@ =~= old(out)@ + kinds_block(header@, v@));
    }
}

/// Writes the number of statements of a function body, when there is one.
fn push_stmts_line(out: &mut Vec<char>, v: &Option<Vec<Node>>)
    ensures
        final(out)@ == old(out)@ + stmts_line(*v),
{
    if let Some(v) = v {
        push_str(out, "stmts: exist(");
        push_u64(out, v.len() as u64);
        push_str(out, ")\n");
    }
    proof {
        assert(out@ =~= old(out)@ + stmts_line(*v));
    }
}

/// Writes the initial-value items, when there are any.
fn push_data_block(out: &mut Vec<char>, v: &Vec<InitData>)
    ensures
        final(out)@ == old(out)@ + data_block(v@),
{
    if v.len() > 0 {
        push_str(out, "init_data: exist\n");
        let mut i: usize = 0;
        let ghost e = out@;
        while i < v.len()
            invariant
                i <= v@.len(),
                out@ == e + data_lines(v@.subrange(0, i as int)),
            decreases v.len() - i,
        {
            let t = v[i].text();
            push_chars(out, &t);
            push_str(out, "\n");
            proof {
                let pre = v@.subrange(0, i + 1);
                assert(pre.drop_last() =~= v@.subrange(0, i as int));
                assert(out@ =~= e + data_lines(pre));
            }
            i = i + 1;
        }
        proof {
            assert(v@.subrange(0, v@.len() as int) =~= v@);
        }
    }
    proof {
        assert(out@ =~= old(out)@ + data_block(v@));
    }
}

} // verus!
