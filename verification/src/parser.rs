//! The recursive-descent parser: builds syntax trees from tokens, keeps track of local and
//! global variables and string literals, and gives every expression its type.
use vstd::prelude::*;
use crate::initializer::Initializer;
use crate::node::{Node, Nodekind, is_blank, error_nod};
use crate::grammar::{
    shape, reads_primary, reads_tailed, reads_unary, reads_mul, reads_add, reads_shift, reads_relational,
    reads_equality, reads_bitand, reads_bitxor, reads_bitor, reads_logand, reads_logor, reads_assign, reads_expr,
    lemma_shape_top, lemma_add_shape, lemma_sub_shape, lemma_assign_shape, lemma_typing_keeps_shape, un_at,
    reads_params, reads_args, reads_subscripts, reads_subscripted, type_token, zero, Shape, is_unary, is_assign,
    is_expr, any_shape, any_pos, compound, compound_left, compound_kind, plus_one, one, temp, temp_target,
    operation, lhs,
};
use crate::token::{CompileError, Token, Tokenkind, TokenStream, error_tok, error_msg, cur};
use crate::tokenizer::{
    at_eof, consume, consume_ident, consume_kind, consume_literal, consume_number, consume_type,
    expect, expect_ident, expect_literal, expect_number, expect_type, is_kind, is_type,
    spec_is, spec_is_type, spec_type_of, tokens_wf, utf8_seq, utf8_width, cur_body, tok_ok,
};
use crate::typecell::{Type, TypeCell, TypeList, get_common_type, list_seq, type_cell_eq, spec_common_type, spec_new, spec_ptr_to, spec_array_of, type_eq, has_bytes, spec_bytes, type_bytes};
use crate::utils::{chars_eq, copy_chars, push_chars, push_str, push_u64, chars_of};

verus! {

/// A local variable: its name, its offset below the base pointer, its type, and the bytes of
/// its slot (which runs from the offset upwards).
#[derive(Debug)]
pub struct LocalVar {
    pub name: Vec<char>,
    pub offset: usize,
    pub typ: TypeCell,
    pub size: usize,
}

/// A global variable or function: its name, its type (variables) or function type
/// (functions), whether a function body has been read, and the token of its declaration.
#[derive(Debug)]
pub struct GlobalDecl {
    pub name: Vec<char>,
    pub typ: Option<TypeCell>,
    pub func_typ: Option<TypeCell>,
    pub has_stmts: bool,
    pub token: usize,
}

/// A string literal and the label of its copy in read-only data.
#[derive(Debug)]
pub struct Literal {
    pub body: Vec<char>,
    pub name: Vec<char>,
}

/// The state of the parser: the tokens, the local variables of the function being read, the
/// globals declared so far, the largest local offset, and the string literals in order.
#[derive(Debug)]
pub struct Parser {
    pub token_ptr: TokenStream,
    pub locals: Vec<LocalVar>,
    pub globals: Vec<GlobalDecl>,
    pub lvar_max_offset: usize,
    pub literals: Vec<Literal>,
}

/// The local variables of a function: each name is declared once, and each has its own slot
/// inside the frame (between `rbp - max_offset` and `rbp`), apart from the slot of every other.
#[verifier::opaque]
pub open spec fn locals_wf(locals: Seq<LocalVar>, max_offset: usize) -> bool {
    &&& forall|i: int|
        0 <= i < locals.len() ==> (#[trigger] locals[i]).size <= locals[i].offset <= max_offset
    &&& forall|i: int, j: int|
        0 <= i < j < locals.len() ==> (#[trigger] locals[j]).offset >= (#[trigger] locals[i]).offset
            + locals[j].size
    &&& forall|i: int, j: int|
        0 <= i < j < locals.len() ==> (#[trigger] locals[i]).name@ != (#[trigger] locals[j]).name@
}

/// The string literals: each text is stored once, and literal number `i` is labelled
/// `.LC<i>`.
#[verifier::opaque]
pub open spec fn literals_wf(literals: Seq<Literal>) -> bool {
    &&& forall|i: int| 0 <= i < literals.len() ==> (#[trigger] literals[i]).name@ == literal_label(i as nat)
    &&& forall|i: int, j: int|
        0 <= i < j < literals.len() ==> (#[trigger] literals[i]).body@ != (#[trigger] literals[j]).body@
}

/// The globals declared so far: each name once (a later declaration of a name replaces the
/// earlier one).
#[verifier::opaque]
pub open spec fn globals_wf(globals: Seq<GlobalDecl>) -> bool {
    forall|i: int, j: int|
        0 <= i < j < globals.len() ==> (#[trigger] globals[i]).name@ != (#[trigger] globals[j]).name@
}

/// No local variables, no globals, and the empty list of literals, are as they should be.
pub proof fn lemma_wf_empty(max_offset: usize)
    ensures
        locals_wf(Seq::empty(), max_offset),
        globals_wf(Seq::empty()),
        literals_wf(Seq::empty()),
{
    reveal(locals_wf);
    reveal(globals_wf);
    reveal(literals_wf);
}

/// No name is declared twice among the globals: two entries of the table have different
/// names.
pub proof fn lemma_global_names_unique(globals: Seq<GlobalDecl>, i: int, j: int)
    requires
        globals_wf(globals),
        0 <= i < globals.len(),
        0 <= j < globals.len(),
        i != j,
    ensures
        globals[i].name@ != globals[j].name@,
{
    reveal(globals_wf);
}

/// Growing the frame keeps every slot inside it.
pub proof fn lemma_locals_wf_grow(locals: Seq<LocalVar>, a: usize, b: usize)
    requires
        locals_wf(locals, a),
        a <= b,
    ensures
        locals_wf(locals, b),
{
    reveal(locals_wf);
}

/// Two different local variables of a function never share a byte of the frame: both slots
/// lie between `rbp - max_offset` and `rbp`, and the slot of the later one ends where the
/// earlier one starts or below. Their names differ.
pub proof fn lemma_local_slots_disjoint(locals: Seq<LocalVar>, max_offset: usize, i: int, j: int)
    requires
        locals_wf(locals, max_offset),
        0 <= i < j < locals.len(),
    ensures
        locals[i].size <= locals[i].offset <= max_offset,
        locals[j].size <= locals[j].offset <= max_offset,
        locals[j].offset - locals[j].size >= locals[i].offset,
        locals[i].name@ != locals[j].name@,
{
    reveal(locals_wf);
}

/// Each string literal has its own label: literals with different texts get different labels,
/// and the label of literal number `i` is `.LC<i>`.
pub proof fn lemma_literal_labels(literals: Seq<Literal>, i: int, j: int)
    requires
        literals_wf(literals),
        0 <= i < literals.len(),
        0 <= j < literals.len(),
        i != j,
    ensures
        literals[i].name@ == literal_label(i as nat),
        literals[i].body@ != literals[j].body@,
        literals[i].name@ != literals[j].name@,
{
    reveal(literals_wf);
    crate::utils::lemma_decimal_injective(i as nat, j as nat);
    let a = literals[i].name@;
    let b = literals[j].name@;
    reveal_strlit(".LC");
    if a == b {
        assert(a.subrange(3, a.len() as int) =~= crate::utils::decimal(i as nat));
        assert(b.subrange(3, b.len() as int) =~= crate::utils::decimal(j as nat));
    }
}

/// The parser state is usable: its tokens are as the tokenizer makes them, and its local
/// variables, globals and string literals are as described above.
pub open spec fn parser_wf(p: Parser) -> bool {
    &&& tokens_wf(p.token_ptr)
    &&& locals_wf(p.locals@, p.lvar_max_offset)
    &&& globals_wf(p.globals@)
    &&& literals_wf(p.literals@)
}

/// The tokens that `p` reads.
pub open spec fn toks_of(p: Parser) -> Seq<Token> {
    p.token_ptr.tokens@
}

/// The read position of `p`.
pub open spec fn pos_of(p: Parser) -> int {
    p.token_ptr.pos as int
}

/// The number of tokens left to read.
pub open spec fn rem(p: Parser) -> int {
    p.token_ptr.tokens@.len() - p.token_ptr.pos
}

/// `f` follows `o`: same tokens, read position not behind, still usable, and nothing that
/// `o` knew is forgotten.
pub open spec fn adv(o: Parser, f: Parser) -> bool {
    &&& parser_wf(f)
    &&& f.token_ptr.tokens == o.token_ptr.tokens
    &&& f.token_ptr.pos >= o.token_ptr.pos
    &&& keeps(o, f)
}

/// Nothing that `o` knew is forgotten in `f`: its local variables are still there, unchanged
/// and at the same places, the frame has not shrunk, and neither string literal nor global
/// is forgotten.
pub open spec fn keeps(o: Parser, f: Parser) -> bool {
    &&& o.locals@.len() <= f.locals@.len()
    &&& forall|i: int| 0 <= i < o.locals@.len() ==> #[trigger] f.locals@[i] == o.locals@[i]
    &&& o.lvar_max_offset <= f.lvar_max_offset
    &&& keeps_tables(o, f)
}

/// The string literals of `o` are still there in `f`, unchanged and at the same places, and
/// each global that `o` had declared still has an entry, under the same name at the same
/// place.
pub open spec fn keeps_tables(o: Parser, f: Parser) -> bool {
    &&& o.literals@.len() <= f.literals@.len()
    &&& forall|i: int| 0 <= i < o.literals@.len() ==> #[trigger] f.literals@[i] == o.literals@[i]
    &&& o.globals@.len() <= f.globals@.len()
    &&& forall|i: int| 0 <= i < o.globals@.len() ==> (#[trigger] f.globals@[i]).name@ == o.globals@[i].name@
}

/// `f` has read at least one more token than `o`.
pub open spec fn progressed(o: Parser, f: Parser) -> bool {
    f.token_ptr.pos > o.token_ptr.pos
}

impl Parser {
    /// A parser reading `token_ptr` from its current position, with nothing declared.
    pub fn new(token_ptr: TokenStream) -> (r: Parser)
        ensures
            r.token_ptr == token_ptr,
            r.locals@.len() == 0,
            r.globals@.len() == 0,
            r.lvar_max_offset == 0,
            r.literals@.len() == 0,
    {
        Parser {
            token_ptr,
            locals: Vec::new(),
            globals: Vec::new(),
            lvar_max_offset: 0,
            literals: Vec::new(),
        }
    }
}

/// The error `msg` at the token at position `ix`.
fn error_at_token(p: &Parser, ix: usize, msg: &str) -> (e: CompileError)
    ensures
        e.msg@ == msg@,
{
    if ix < p.token_ptr.tokens.len() {
        error_tok(msg, &p.token_ptr.tokens[ix])
    } else {
        error_msg(msg)
    }
}

/// The error `pre` + `mid` + `post` at the token at position `ix`.
fn error_at_token3(p: &Parser, ix: usize, pre: &str, mid: &Vec<char>, post: &str) -> (e: CompileError)
    ensures
        e.msg@ == pre@ + mid@ + post@,
{
    let mut e = error_at_token(p, ix, pre);
    push_chars(&mut e.msg, mid);
    push_str(&mut e.msg, post);
    e
}

/// The error that an expression has no type where it needs one.
fn untyped(node: &Node, tokens: &Vec<Token>) -> (e: CompileError)
    ensures
        e.msg@ == "型が決定できません。"@,
{
    error_nod("型が決定できません。", node, tokens)
}

/// The label `.LC<id>` of string literal number `id`.
pub open spec fn literal_label(id: nat) -> Seq<char> {
    ".LC"@ + crate::utils::decimal(id)
}

/// The label of the string literal `body`: the label it already has, or a new one
/// (`.LC` followed by its number in order of appearance).
pub fn store_literal(p: &mut Parser, body: Vec<char>) -> (name: Vec<char>)
    requires
        literals_wf(old(p).literals@),
    ensures
        literals_wf(final(p).literals@),
        exists|i: int|
            0 <= i < final(p).literals@.len() && (#[trigger] final(p).literals@[i]).body@ == body@
                && final(p).literals@[i].name@ == name@,
        final(p).token_ptr == old(p).token_ptr,
        final(p).locals == old(p).locals,
        final(p).globals == old(p).globals,
        final(p).lvar_max_offset == old(p).lvar_max_offset,
        keeps(*old(p), *final(p)),
        (exists|i: int|
            0 <= i < old(p).literals@.len() && (#[trigger] old(p).literals@[i]).body@ == body@)
            ==> final(p).literals == old(p).literals,
        (forall|i: int|
            0 <= i < old(p).literals@.len() ==> (#[trigger] old(p).literals@[i]).body@ != body@)
            ==> final(p).literals@.len() == old(p).literals@.len() + 1 && name@ == literal_label(
            old(p).literals@.len() as nat,
        ) && final(p).literals@.last().body@ == body@ && final(p).literals@.last().name@
            == name@,
{
    proof {
        reveal(literals_wf);
    }
    let mut i: usize = 0;
    while i < p.literals.len()
        invariant
            i <= p.literals@.len(),
            forall|k: int| 0 <= k < i ==> (#[trigger] p.literals@[k]).body@ != body@,
            *p == *old(p),
            literals_wf(p.literals@),
        decreases p.literals.len() - i,
    {
        if chars_eq(&p.literals[i].body, &body) {
            return copy_chars(&p.literals[i].name);
        }
        i = i + 1;
    }
    let id = p.literals.len();
    let mut name = chars_of(".LC");
    push_u64(&mut name, id as u64);
    let ghost b = body@;
    let lit = Literal { body, name: copy_chars(&name) };
    p.literals.push(lit);
    proof {
        assert(p.literals@[id as int].body@ == b);
        reveal(literals_wf);
    }
    name
}

/// The smallest multiple of `base` that is at least `addr`.
pub open spec fn aligned(addr: nat, base: nat) -> nat {
    (((addr + base - 1) as int) / (base as int) * (base as int)) as nat
}

/// Rounds `addr` up to a multiple of `base`; `None` when that does not fit in a `usize`.
pub fn align(addr: usize, base: usize) -> (r: Option<usize>)
    requires
        base > 0,
    ensures
        addr + base - 1 <= usize::MAX ==> r == Some(aligned(addr as nat, base as nat) as usize),
        addr + base - 1 > usize::MAX ==> r is None,
{
    if addr > usize::MAX - (base - 1) {
        return None;
    }
    let a = addr + (base - 1);
    let q = a / base;
    proof {
        assert(q * base <= a) by (nonlinear_arith)
            requires
                q == a / base,
                base > 0,
        ;
    }
    Some(q * base)
}

/// Rounding up to a multiple of `base` gives the smallest multiple of `base` that is at least
/// `addr`: a multiple of `base`, not below `addr`, and less than `base` above it.
pub proof fn lemma_aligned(addr: nat, base: nat)
    requires
        base > 0,
    ensures
        aligned(addr, base) % base == 0,
        addr <= aligned(addr, base) < addr + base,
{
    let a = (addr + base - 1) as int;
    let b = base as int;
    let q = a / b;
    vstd::arithmetic::div_mod::lemma_fundamental_div_mod(a, b);
    assert(0 <= a % b < b) by {
        vstd::arithmetic::div_mod::lemma_mod_bound(a, b);
    }
    assert(q >= 0) by {
        vstd::arithmetic::div_mod::lemma_div_pos_is_pos(a, b);
    }
    assert(q * b >= 0) by (nonlinear_arith)
        requires
            q >= 0,
            b > 0,
    ;
    assert(aligned(addr, base) == q * b);
    vstd::arithmetic::div_mod::lemma_mod_multiples_basic(q, b);
    assert((q * b) % b == 0) by {
        vstd::arithmetic::mul::lemma_mul_is_commutative(q, b);
    }
}

/// The alignment of a variable of `bytes` bytes.
pub open spec fn alignment_base(bytes: nat) -> nat {
    if bytes >= 16 {
        16
    } else if bytes >= 8 {
        8
    } else if bytes >= 4 {
        4
    } else if bytes >= 2 {
        2
    } else {
        1
    }
}

/// The alignment of a variable of `bytes` bytes.
pub fn get_alignment_base(bytes: usize) -> (r: usize)
    ensures
        r == alignment_base(bytes as nat),
{
    if bytes >= 16 {
        16
    } else if bytes >= 8 {
        8
    } else if bytes >= 4 {
        4
    } else if bytes >= 2 {
        2
    } else {
        1
    }
}

/// The position of the local variable `name`, if it is declared.
fn find_local(p: &Parser, name: &Vec<char>) -> (r: Option<usize>)
    ensures
        r is Some ==> r.unwrap() < p.locals@.len() && p.locals@[r.unwrap() as int].name@ == name@,
        r is None ==> forall|i: int| 0 <= i < p.locals@.len() ==> (#[trigger] p.locals@[i]).name@ != name@,
{
    let mut i: usize = 0;
    while i < p.locals.len()
        invariant
            i <= p.locals@.len(),
            forall|k: int| 0 <= k < i ==> (#[trigger] p.locals@[k]).name@ != name@,
        decreases p.locals.len() - i,
    {
        if chars_eq(&p.locals[i].name, name) {
            return Some(i);
        }
        i = i + 1;
    }
    None
}

/// The position of the global `name`, if it is declared.
fn find_global(p: &Parser, name: &Vec<char>) -> (r: Option<usize>)
    ensures
        r is Some ==> r.unwrap() < p.globals@.len() && p.globals@[r.unwrap() as int].name@ == name@,
        r is None ==> forall|i: int| 0 <= i < p.globals@.len() ==> (#[trigger] p.globals@[i]).name@ != name@,
{
    let mut i: usize = 0;
    while i < p.globals.len()
        invariant
            i <= p.globals@.len(),
            forall|k: int| 0 <= k < i ==> (#[trigger] p.globals@[k]).name@ != name@,
        decreases p.globals.len() - i,
    {
        if chars_eq(&p.globals[i].name, name) {
            return Some(i);
        }
        i = i + 1;
    }
    None
}

/// A node with two operands.
fn new_binary(kind: Nodekind, left: Node, right: Node, token: Option<usize>) -> (r: Node)
    ensures
        bare(r),
        r.val is None,
        r.kind == kind,
        r.token == token,
        r.typ is None,
        r.left == Some(Box::new(left)),
        r.right == Some(Box::new(right)),
{
    let mut n = Node::blank(kind);
    n.token = token;
    n.left = Some(Box::new(left));
    n.right = Some(Box::new(right));
    n
}

/// A node with one operand.
fn new_unary(kind: Nodekind, left: Node, token: Option<usize>) -> (r: Node)
    ensures
        bare(r),
        r.val is None,
        r.kind == kind,
        r.token == token,
        r.typ is None,
        r.left == Some(Box::new(left)),
        r.right is None,
{
    let mut n = Node::blank(kind);
    n.token = token;
    n.left = Some(Box::new(left));
    n
}

/// A number of type `int`.
fn new_num(val: i32, token: Option<usize>) -> (r: Node)
    ensures
        bare(r),
        r.left is None,
        r.right is None,
        r.kind == Nodekind::NumNd,
        r.token == token,
        r.val == Some(val),
        r.typ == Some(crate::typecell::spec_new(Type::Int)),
{
    let mut n = Node::blank(Nodekind::NumNd);
    n.token = token;
    n.typ = Some(TypeCell::new(Type::Int));
    n.val = Some(val);
    n
}

/// A node that does nothing.
fn nop() -> (r: Node)
    ensures
        r.kind == Nodekind::NopNd,
        r.typ == Some(crate::typecell::spec_new(Type::Invalid)),
{
    let mut n = Node::blank(Nodekind::NopNd);
    n.typ = Some(TypeCell::new(Type::Invalid));
    n
}

/// The size and alignment of the slot of a new local variable of type `typ`: every variable
/// is aligned to eight bytes (a temporary, which has no type, takes eight); none for a type
/// without a size.
pub open spec fn slot_size(typ: Option<TypeCell>) -> Option<(nat, nat)> {
    match typ {
        Some(t) => if has_bytes(t) {
            Some((spec_bytes(t), 8))
        } else {
            None
        },
        None => Some((8, 8)),
    }
}

/// The offset of a new local variable of type `typ` when the frame so far takes `max`
/// bytes: the frame grown by its size and rounded up to its alignment; none where that does
/// not fit in a `usize` or the type has no size.
pub open spec fn new_slot(max: usize, typ: Option<TypeCell>) -> Option<usize> {
    match slot_size(typ) {
        Some((size, base)) => if max + size + base - 1 > usize::MAX {
            None
        } else {
            Some(aligned((max + size) as nat, base) as usize)
        },
        None => None,
    }
}

/// Whether `n` is a variable node at `token` of type `typ` and nothing else set but its place
/// (an offset, or a name).
pub open spec fn lvar_shape(n: Node, token: Option<usize>, typ: Option<TypeCell>) -> bool {
    &&& n.kind == Nodekind::LvarNd
    &&& n.token == token
    &&& n.typ == typ
    &&& n.val is None
    &&& n.left is None
    &&& n.right is None
    &&& n.init is None
    &&& n.enter is None
    &&& n.routine is None
    &&& n.branch is None
    &&& n.els is None
    &&& n.children@.len() == 0
    &&& n.init_data@.len() == 0
    &&& n.func_typ is None
    &&& n.args@.len() == 0
    &&& n.stmts is None
    &&& n.max_offset is None
    &&& n.level is None
}

/// A variable. A local variable gets the offset it already has, or the next offset after
/// the variables declared so far, aligned for its type (temporaries, which have no type, take
/// eight bytes); a global one keeps its name.
fn make_lvar(p: &mut Parser, name: Vec<char>, token: Option<usize>, typ: Option<TypeCell>, is_local: bool) -> (r: Result<Node, CompileError>)
    requires
        parser_wf(*old(p)),
    ensures
        parser_wf(*final(p)),
        final(p).token_ptr == old(p).token_ptr,
        final(p).literals == old(p).literals,
        final(p).globals == old(p).globals,
        keeps(*old(p), *final(p)),
        r matches Ok(n) ==> lvar_shape(n, token, typ) && n.is_local == is_local,
        !is_local ==> *final(p) == *old(p) && (r matches Ok(n) && n.name == Some(name) && n.offset is None),
        is_local ==> r is Ok ==> r->Ok_0.name is None,
        is_local && (exists|i: int| 0 <= i < old(p).locals@.len() && (#[trigger] old(p).locals@[i]).name@ == name@)
            ==> final(p).locals == old(p).locals && final(p).lvar_max_offset == old(p).lvar_max_offset && (r matches Ok(n)
            && exists|i: int|
            0 <= i < old(p).locals@.len() && (#[trigger] old(p).locals@[i]).name@ == name@ && n.offset == Some(old(p).locals@[i].offset)),
        is_local && (forall|i: int| 0 <= i < old(p).locals@.len() ==> (#[trigger] old(p).locals@[i]).name@ != name@)
            ==> (r is Ok <==> new_slot(old(p).lvar_max_offset, typ) is Some) && (r matches Ok(n) ==> {
            &&& n.offset == new_slot(old(p).lvar_max_offset, typ)
            &&& final(p).lvar_max_offset == new_slot(old(p).lvar_max_offset, typ).unwrap()
            &&& final(p).locals@.len() == old(p).locals@.len() + 1
            &&& final(p).locals@.drop_last() == old(p).locals@
            &&& final(p).locals@.last().name@ == name@
            &&& final(p).locals@.last().offset == final(p).lvar_max_offset
            &&& final(p).locals@.last().size == slot_size(typ).unwrap().0
            &&& typ matches Some(t) ==> final(p).locals@.last().typ == t
        }),
        r is Ok && is_local ==> exists|i: int|
            0 <= i < final(p).locals@.len() && (#[trigger] final(p).locals@[i]).name@ == name@ && r->Ok_0.offset == Some(final(p).locals@[i].offset),
{
    if is_local {
        let offset = match find_local(p, &name) {
            Some(i) => {
                proof {
                    reveal(locals_wf);
                }
                p.locals[i].offset
            },
            None => {
                let (diff, align_base) = match &typ {
                    Some(t) => match t.try_bytes() {
                        Some(b) => (b, 8),
                        None => {
                            return Err(error_msg("変数の大きさが扱えません。"));
                        },
                    },
                    None => (8, 8),
                };
                if p.lvar_max_offset > usize::MAX - diff {
                    return Err(error_msg("変数の大きさが扱えません。"));
                }
                let grown = p.lvar_max_offset + diff;
                let offset = match align(grown, align_base) {
                    Some(a) => a,
                    None => {
                        return Err(error_msg("変数の大きさが扱えません。"));
                    },
                };
                proof {
                    lemma_aligned(grown as nat, align_base as nat);
                }
                let ghost old_max = p.lvar_max_offset;
                let ghost old_locals = p.locals@;
                p.lvar_max_offset = offset;
                let stored = match &typ {
                    Some(t) => t.copy(),
                    None => TypeCell::default(),
                };
                let ghost n = name@;
                p.locals.push(LocalVar { name: copy_chars(&name), offset, typ: stored, size: diff });
                proof {
                    reveal(locals_wf);
                    let last = p.locals@.len() - 1;
                    assert(p.locals@[last].name@ == n);
                    assert(p.locals@.drop_last() =~= old_locals);
                    assert forall|i: int, j: int|
                        0 <= i < j < p.locals@.len() implies (#[trigger] p.locals@[j]).offset
                        >= (#[trigger] p.locals@[i]).offset + p.locals@[j].size by {
                        if j == last {
                            assert(p.locals@[i].offset <= old_max);
                        }
                    }
                }
                offset
            },
        };
        let mut n = Node::blank(Nodekind::LvarNd);
        n.typ = typ;
        n.token = token;
        n.offset = Some(offset);
        n.is_local = true;
        Ok(n)
    } else {
        let mut n = Node::blank(Nodekind::LvarNd);
        n.typ = typ;
        n.token = token;
        n.name = Some(name);
        Ok(n)
    }
}

/// A control statement (`if`, `for` or `while`).
fn new_ctrl(
    kind: Nodekind,
    init: Option<Box<Node>>,
    enter: Option<Box<Node>>,
    routine: Option<Box<Node>>,
    branch: Option<Box<Node>>,
    els: Option<Box<Node>>,
) -> (r: Node)
    requires
        kind == Nodekind::IfNd || kind == Nodekind::ForNd || kind == Nodekind::WhileNd,
    ensures
        r.kind == kind,
        r.init == init,
        r.enter == enter,
        r.routine == routine,
        r.branch == branch,
        r.els == els,
{
    let mut n = Node::blank(kind);
    n.init = init;
    n.enter = enter;
    n.routine = routine;
    n.branch = branch;
    n.els = els;
    n
}

/// A call of function `name` of type `func_typ`.
fn new_func(name: Vec<char>, func_typ: TypeCell, args: Vec<Node>, token: Option<usize>) -> (r: Node)
    requires
        func_typ.typ == Type::Func,
    ensures
        r.kind == Nodekind::FunCallNd,
        r.token == token,
        r.left is None,
        r.right is None,
        r.val is None,
        r.func_typ == Some(func_typ),
        r.name == Some(name),
        r.args == args,
{
    let mut n = Node::blank(Nodekind::FunCallNd);
    n.token = token;
    n.name = Some(name);
    n.func_typ = Some(func_typ);
    n.args = args;
    n
}

/// A global variable or function declaration.
fn make_global(
    name: Vec<char>,
    typ: Option<TypeCell>,
    func_typ: Option<TypeCell>,
    args: Vec<Node>,
    stmts: Option<Vec<Node>>,
    max_offset: Option<usize>,
    token: Option<usize>,
) -> (r: Node)
    ensures
        r.kind == Nodekind::GlobalNd,
        r.name == Some(name),
        r.typ == typ,
        r.func_typ == func_typ,
        r.args == args,
        r.stmts == stmts,
        r.max_offset == max_offset,
{
    let mut n = Node::blank(Nodekind::GlobalNd);
    n.token = token;
    n.typ = typ;
    n.name = Some(name);
    n.func_typ = func_typ;
    n.args = args;
    n.stmts = stmts;
    n.max_offset = max_offset;
    n
}

/// A conversion of `expr` (already typed) to `typ`.
fn make_cast(expr: Node, typ: TypeCell) -> (r: Node)
    ensures
        cast_shape(r, expr, typ),
{
    let token = expr.token;
    let mut n = Node::blank(Nodekind::CastNd);
    n.token = token;
    n.typ = Some(typ);
    n.left = Some(Box::new(expr));
    n
}

/// The type of the boxed node `n`, if it has one.
fn type_of(n: &Option<Box<Node>>) -> (r: Option<TypeCell>)
    ensures
        r == box_type(*n),
{
    match n {
        Some(b) => match &b.typ {
            Some(t) => Some(t.copy()),
            None => None,
        },
        None => None,
    }
}

/// Converts both operands of `node` to their common type and gives that type.
fn arith_cast(node: &mut Node, tokens: &Vec<Token>) -> (r: Result<TypeCell, CompileError>)
    ensures
        same_frame(*old(node), *final(node)),
        final(node).typ == old(node).typ,
        final(node).init == old(node).init,
        final(node).enter == old(node).enter,
        final(node).routine == old(node).routine,
        final(node).branch == old(node).branch,
        final(node).els == old(node).els,
        r is Ok <==> arith_type(box_type(old(node).left), box_type(old(node).right)) is Some,
        r matches Ok(t) ==> t == arith_type(box_type(old(node).left), box_type(old(node).right)).unwrap()
            && cast_at(old(node).left, final(node).left, t) && cast_at(old(node).right, final(node).right, t),
{
    let lt = match type_of(&node.left) {
        Some(t) => t,
        None => {
            return Err(untyped(node, tokens));
        },
    };
    let rt = match type_of(&node.right) {
        Some(t) => t,
        None => {
            return Err(untyped(node, tokens));
        },
    };
    if !ptr_chains_ok(&lt) || !ptr_chains_ok(&rt) {
        return Err(untyped(node, tokens));
    }
    let typ = get_common_type(lt, rt);
    let left = node.left.take();
    let right = node.right.take();
    match (left, right) {
        (Some(l), Some(r)) => {
            node.left = Some(Box::new(make_cast(*l, typ.copy())));
            node.right = Some(Box::new(make_cast(*r, typ.copy())));
            Ok(typ)
        },
        _ => Err(untyped(node, tokens)),
    }
}

/// Whether a pointer to the type that `t` refers to can be made.
fn ptr_chains_ok(t: &TypeCell) -> (r: bool)
    ensures
        r == spec_ptr_chains_ok(*t),
{
    match &t.ptr_to {
        Some(b) => b.chains < usize::MAX,
        None => true,
    }
}

/// Types one optional child of a node.
fn confirm_child(child: &mut Option<Box<Node>>, tokens: &Vec<Token>) -> (r: Result<(), CompileError>)
    ensures
        (*final(child)) is Some == (*old(child)) is Some,
        r is Ok <==> child_ok(*old(child)),
        r is Ok ==> child_as(*old(child), *final(child)),
        r is Ok ==> box_type(*final(child)) == child_type(*old(child)),
        r is Ok && (*old(child)) is Some ==> final(child).unwrap().kind == old(child).unwrap().kind,
    decreases *old(child), 0int,
{
    match child.take() {
        Some(b) => {
            let mut n = *b;
            let ghost o = n;
            let r = confirm_type(&mut n, tokens);
            proof {
                if r is Ok {
                    lemma_typed_type(o, n);
                }
            }
            *child = Some(Box::new(n));
            r
        },
        None => Ok(()),
    }
}

/// The type of the boxed node `c`, if there is one and it has a type.
pub open spec fn box_type(c: Option<Box<Node>>) -> Option<TypeCell> {
    match c {
        Some(b) => b.typ,
        None => None,
    }
}

/// Whether a pointer to the type that `t` refers to can be made.
pub open spec fn spec_ptr_chains_ok(t: TypeCell) -> bool {
    t.ptr_to is Some ==> t.ptr_to.unwrap().chains < usize::MAX
}

/// The common type of the operands of an arithmetic operation with operand types `lt` and
/// `rt`; none where an operand is missing or untyped, or no pointer can be made.
pub open spec fn arith_type(lt: Option<TypeCell>, rt: Option<TypeCell>) -> Option<TypeCell> {
    match (lt, rt) {
        (Some(l), Some(r)) => if spec_ptr_chains_ok(l) && spec_ptr_chains_ok(r) {
            Some(spec_common_type(l, r))
        } else {
            None
        },
        _ => None,
    }
}

/// Whether the optional child `c` can be typed.
pub open spec fn child_ok(c: Option<Box<Node>>) -> bool
    decreases c, 0int,
{
    match c {
        Some(b) => type_result(*b) is Some,
        None => true,
    }
}

/// The type the optional child `c` has once typed.
pub open spec fn child_type(c: Option<Box<Node>>) -> Option<TypeCell>
    decreases c, 0int,
{
    match c {
        Some(b) => match type_result(*b) {
            Some(t) => t,
            None => None,
        },
        None => None,
    }
}

/// The kinds of node whose operands are converted to their common type.
pub open spec fn arith_kind(k: Nodekind) -> bool {
    ||| k == Nodekind::AddNd
    ||| k == Nodekind::SubNd
    ||| k == Nodekind::MulNd
    ||| k == Nodekind::DivNd
    ||| k == Nodekind::ModNd
    ||| k == Nodekind::BitAndNd
    ||| k == Nodekind::BitOrNd
    ||| k == Nodekind::BitXorNd
    ||| k == Nodekind::LShiftNd
    ||| k == Nodekind::RShiftNd
    ||| k == Nodekind::EqNd
    ||| k == Nodekind::NEqNd
    ||| k == Nodekind::LThanNd
    ||| k == Nodekind::LEqNd
}

/// The type that `confirm_type` gives `n` (`Some(None)` for a node that gets none), or `None`
/// where it reports an error: a node that has a type keeps it; otherwise every child is
/// typed first, then the node's own type follows from its kind and its children's types.
pub open spec fn type_result(n: Node) -> Option<Option<TypeCell>>
    decreases n, 1int,
{
    if n.typ is Some {
        Some(n.typ)
    } else if !(child_ok(n.left) && child_ok(n.right) && child_ok(n.init) && child_ok(n.enter)
        && child_ok(n.routine) && child_ok(n.branch) && child_ok(n.els)) {
        None
    } else {
        own_type(n, child_type(n.left), child_type(n.right))
    }
}

/// The type of the node `n` whose left and right children have the types `lt` and `rt`:
/// `int` for numbers, logical operations and comparisons; a pointer to the operand for `&`
/// (of a variable or a dereference only); what the pointer or array refers to for `*`; the
/// left type for an assignment (not to an array); the common type of the operands for
/// arithmetic (no pointer for the operations other than `+` and `-`); the operand type for
/// `~` (no pointer), `return` and clearing; the right type for `,`; the return type for a
/// call; nothing for other kinds. `None` where one of these fails.
pub open spec fn own_type(n: Node, lt: Option<TypeCell>, rt: Option<TypeCell>) -> Option<Option<TypeCell>> {
    match n.kind {
        Nodekind::NumNd | Nodekind::LogNotNd | Nodekind::LogAndNd | Nodekind::LogOrNd => Some(
            Some(spec_new(Type::Int)),
        ),
        Nodekind::AddrNd => match n.left {
            Some(l) => if l.kind == Nodekind::DerefNd || l.kind == Nodekind::LvarNd {
                match lt {
                    Some(t) => if t.chains == usize::MAX {
                        None
                    } else {
                        Some(Some(spec_ptr_to(t)))
                    },
                    None => None,
                }
            } else {
                None
            },
            None => None,
        },
        Nodekind::DerefNd => match lt {
            Some(t) => if t.ptr_end is Some && (t.typ == Type::Array || t.typ == Type::Ptr)
                && t.ptr_to is Some {
                Some(Some(*t.ptr_to.unwrap()))
            } else {
                None
            },
            None => None,
        },
        Nodekind::AssignNd => match lt {
            Some(t) => if t.typ == Type::Array || n.right is None {
                None
            } else {
                Some(Some(t))
            },
            None => None,
        },
        Nodekind::AddNd | Nodekind::SubNd => match arith_type(lt, rt) {
            Some(t) => Some(Some(t)),
            None => None,
        },
        Nodekind::BitNotNd => match lt {
            Some(t) => if t.ptr_end is Some {
                None
            } else {
                Some(Some(t))
            },
            None => None,
        },
        Nodekind::MulNd | Nodekind::DivNd | Nodekind::ModNd | Nodekind::BitAndNd
        | Nodekind::BitOrNd | Nodekind::BitXorNd | Nodekind::LShiftNd | Nodekind::RShiftNd => match arith_type(lt, rt) {
            Some(t) => if t.ptr_end is Some {
                None
            } else {
                Some(Some(t))
            },
            None => None,
        },
        Nodekind::EqNd | Nodekind::NEqNd | Nodekind::LThanNd | Nodekind::LEqNd => match arith_type(lt, rt) {
            Some(_) => Some(Some(spec_new(Type::Int))),
            None => None,
        },
        Nodekind::CommaNd => match rt {
            Some(t) => Some(Some(t)),
            None => None,
        },
        Nodekind::FunCallNd => match n.func_typ {
            Some(f) => match f.ret_typ {
                Some(r) => Some(Some(*r)),
                None => None,
            },
            None => None,
        },
        Nodekind::ReturnNd | Nodekind::ZeroClrNd => match lt {
            Some(t) => Some(Some(t)),
            None => None,
        },
        _ => Some(None),
    }
}

/// Whether the optional child `fc` is the conversion of `oc` to `t`.
pub open spec fn cast_at(oc: Option<Box<Node>>, fc: Option<Box<Node>>, t: TypeCell) -> bool {
    match (oc, fc) {
        (Some(a), Some(c)) => cast_shape(*c, *a, t),
        _ => false,
    }
}

/// How the left and right children `fl`, `fr` of a node of kind `k` come from `ol`, `or`
/// once the node itself is typed: converted to the common type `t` of arithmetic operands,
/// the right side of an assignment converted to the left type `lt`, else unchanged.
pub open spec fn operands_as(k: Nodekind, ol: Option<Box<Node>>, or: Option<Box<Node>>, fl: Option<Box<Node>>, fr: Option<Box<Node>>) -> bool {
    if arith_kind(k) {
        let t = arith_type(box_type(ol), box_type(or)).unwrap();
        cast_at(ol, fl, t) && cast_at(or, fr, t)
    } else if k == Nodekind::AssignNd {
        fl == ol && cast_at(or, fr, box_type(ol).unwrap())
    } else {
        fl == ol && fr == or
    }
}

/// Whether `c` is the conversion of `e` to `t`: a node of kind `CastNd` at the token of `e`,
/// of type `t`, with `e` as its operand and nothing else set.
pub open spec fn cast_shape(c: Node, e: Node, t: TypeCell) -> bool {
    &&& c.kind == Nodekind::CastNd
    &&& c.token == e.token
    &&& c.typ == Some(t)
    &&& c.left == Some(Box::new(e))
    &&& c.val is None
    &&& c.offset is None
    &&& c.right is None
    &&& c.init is None
    &&& c.enter is None
    &&& c.routine is None
    &&& c.branch is None
    &&& c.els is None
    &&& c.children@.len() == 0
    &&& c.name is None
    &&& c.init_data@.len() == 0
    &&& c.func_typ is None
    &&& c.args@.len() == 0
    &&& c.stmts is None
    &&& c.max_offset is None
    &&& !c.is_local
    &&& c.level is None
}

/// `f` and `o` agree on everything but their type and their seven optional children.
pub open spec fn same_frame(o: Node, f: Node) -> bool {
    &&& f.kind == o.kind
    &&& f.token == o.token
    &&& f.val == o.val
    &&& f.offset == o.offset
    &&& f.children == o.children
    &&& f.name == o.name
    &&& f.init_data == o.init_data
    &&& f.func_typ == o.func_typ
    &&& f.args == o.args
    &&& f.stmts == o.stmts
    &&& f.max_offset == o.max_offset
    &&& f.is_local == o.is_local
    &&& f.level == o.level
}

/// Whether the optional child `fc` is `oc` typed.
pub open spec fn child_as(oc: Option<Box<Node>>, fc: Option<Box<Node>>) -> bool
    decreases oc, 0int,
{
    match (oc, fc) {
        (None, None) => true,
        (Some(a), Some(b)) => typed_as(*a, *b),
        _ => false,
    }
}

/// Whether the optional child `fc` is `oc` typed and then converted to `t`.
pub open spec fn casted_as(oc: Option<Box<Node>>, fc: Option<Box<Node>>, t: TypeCell) -> bool
    decreases oc, 0int,
{
    match (oc, fc) {
        (Some(a), Some(c)) => match c.left {
            Some(x) => typed_as(*a, *x) && cast_shape(*c, *x, t),
            None => false,
        },
        _ => false,
    }
}

/// Whether `f` is `o` typed as `confirm_type` types it (given that it can be): a node with a
/// type is unchanged; otherwise every child is typed, the operands of an arithmetic
/// operation are converted to their common type, the right side of an assignment to the
/// type of the left one, and the node gets the type of `type_result`.
pub open spec fn typed_as(o: Node, f: Node) -> bool
    decreases o, 1int,
{
    if o.typ is Some {
        f == o
    } else {
        &&& same_frame(o, f)
        &&& f.typ == type_result(o).unwrap()
        &&& child_as(o.init, f.init)
        &&& child_as(o.enter, f.enter)
        &&& child_as(o.routine, f.routine)
        &&& child_as(o.branch, f.branch)
        &&& child_as(o.els, f.els)
        &&& if arith_kind(o.kind) {
            let t = arith_type(child_type(o.left), child_type(o.right)).unwrap();
            casted_as(o.left, f.left, t) && casted_as(o.right, f.right, t)
        } else if o.kind == Nodekind::AssignNd {
            child_as(o.left, f.left) && casted_as(o.right, f.right, child_type(o.left).unwrap())
        } else {
            child_as(o.left, f.left) && child_as(o.right, f.right)
        }
    }
}

/// A typed node has the type that `type_result` gives.
pub proof fn lemma_typed_type(o: Node, f: Node)
    requires
        type_result(o) is Some,
        typed_as(o, f),
    ensures
        f.typ == type_result(o).unwrap(),
        f.kind == o.kind,
{
}

/// Typing twice is typing once: what `confirm_type` makes of a tree can be typed again, and
/// typing it again changes nothing.
pub proof fn lemma_typing_idempotent(o: Node, f: Node, g: Node)
    requires
        type_result(o) is Some,
        typed_as(o, f),
    ensures
        type_result(f) is Some,
        typed_as(f, g) ==> g == f,
    decreases o,
{
    if o.typ is None && f.typ is None {
        lemma_child_idempotent(o.left, f.left, g.left);
        lemma_child_idempotent(o.right, f.right, g.right);
        lemma_child_idempotent(o.init, f.init, g.init);
        lemma_child_idempotent(o.enter, f.enter, g.enter);
        lemma_child_idempotent(o.routine, f.routine, g.routine);
        lemma_child_idempotent(o.branch, f.branch, g.branch);
        lemma_child_idempotent(o.els, f.els, g.els);
    }
}

/// `lemma_typing_idempotent` for an optional child that is typed unchanged.
proof fn lemma_child_idempotent(oc: Option<Box<Node>>, fc: Option<Box<Node>>, gc: Option<Box<Node>>)
    requires
        child_ok(oc),
        child_as(oc, fc),
    ensures
        child_ok(fc),
        child_type(fc) == box_type(fc),
        child_as(fc, gc) ==> gc == fc,
    decreases oc,
{
    match (oc, fc, gc) {
        (Some(a), Some(b), Some(c)) => {
            lemma_typing_idempotent(*a, *b, *c);
            lemma_typed_type(*a, *b);
        },
        (Some(a), Some(b), None) => {
            lemma_typing_idempotent(*a, *b, *b);
            lemma_typed_type(*a, *b);
        },
        _ => {},
    }
}

/// A typed tree keeps its type when typed again.
proof fn lemma_typed_result(o: Node, f: Node)
    requires
        type_result(o) is Some,
        typed_as(o, f),
    ensures
        type_result(f) == Some(f.typ),
{
    lemma_typing_idempotent(o, f, f);
    if f.typ is None {
        assert(o.typ is None);
        assert(own_type(o, child_type(o.left), child_type(o.right)) == Some(None::<TypeCell>));
        assert(own_type(f, child_type(f.left), child_type(f.right)) == Some(None::<TypeCell>));
    }
}

/// Whether `assign_op` accepts `l = r`: both sides can be typed and the left one gets a type
/// that is no array.
pub open spec fn assign_ok(l: Node, r: Node) -> bool {
    &&& type_result(l) is Some
    &&& type_result(r) is Some
    &&& typed_type(l) matches Some(t) && t.typ != Type::Array
}

/// Whether `n` is the typed assignment `l = r` at `token`: the typed left side, and the typed
/// right side converted to the type of the left one, which the assignment has.
pub open spec fn assign_shape(l: Node, r: Node, token: Option<usize>, n: Node) -> bool {
    let t = typed_type(l).unwrap();
    &&& n.kind == Nodekind::AssignNd
    &&& n.token == token
    &&& n.typ == Some(t)
    &&& n.val is None
    &&& bare(n)
    &&& child_as(Some(Box::new(l)), n.left)
    &&& casted_as(Some(Box::new(r)), n.right, t)
}

/// Nothing set but what `new_binary`, `new_unary` and `new_num` set: no offset, no parts of a
/// statement, no name, no initial value, no function data.
pub open spec fn bare(n: Node) -> bool {
    &&& n.offset is None
    &&& n.init is None
    &&& n.enter is None
    &&& n.routine is None
    &&& n.branch is None
    &&& n.els is None
    &&& n.children@.len() == 0
    &&& n.name is None
    &&& n.init_data@.len() == 0
    &&& n.func_typ is None
    &&& n.args@.len() == 0
    &&& n.stmts is None
    &&& n.max_offset is None
    &&& !n.is_local
    &&& n.level is None
}

/// The type `n` has once typed, if typing succeeds and gives it one.
pub open spec fn typed_type(n: Node) -> Option<TypeCell> {
    match type_result(n) {
        Some(t) => t,
        None => None,
    }
}

/// The type of an integer of type `it` multiplied by a size (an `int`).
pub open spec fn scale_type(it: TypeCell) -> TypeCell {
    spec_common_type(spec_new(Type::Int), it)
}

/// Whether a pointer of type `pt` can be moved by an integer of type `it`: what it points to
/// has a size, and the product of the integer and that size can be typed (it is no pointer).
pub open spec fn offset_ok(pt: TypeCell, it: TypeCell) -> bool {
    &&& pt.ptr_to is Some
    &&& has_bytes(*pt.ptr_to.unwrap())
    &&& spec_ptr_chains_ok(it)
    &&& scale_type(it).ptr_end is None
}

/// The size of what the pointer type `pt` points to, as the number that the scaling
/// multiplies by.
pub open spec fn pointee_size(pt: TypeCell) -> i32 {
    (spec_bytes(*pt.ptr_to.unwrap()) as usize) as i32
}

/// Whether `m` is `size * io` typed: a product without a token, of type `t`, of the number
/// `size` and of `io` typed, both converted to `t`.
pub open spec fn scaled_shape(m: Node, size: i32, io: Node, t: TypeCell) -> bool {
    &&& m.kind == Nodekind::MulNd
    &&& m.token is None
    &&& m.typ == Some(t)
    &&& m.val is None
    &&& bare(m)
    &&& m.left matches Some(c) && c.left matches Some(num) && cast_shape(*c, *num, t)
        && num.kind == Nodekind::NumNd && num.val == Some(size) && num.token is None && num.typ
        == Some(spec_new(Type::Int)) && bare(*num) && num.left is None && num.right is None
    &&& casted_as(Some(Box::new(io)), m.right, t)
}

/// Whether `new_add` accepts `l + r`: both operands have types once typed, they are not
/// both pointers, and where one is a pointer it can be moved by the other.
pub open spec fn add_ok(l: Node, r: Node) -> bool {
    match (typed_type(l), typed_type(r)) {
        (Some(lt), Some(rt)) => {
            let lp = lt.ptr_end is Some;
            let rp = rt.ptr_end is Some;
            if lp && rp {
                false
            } else if lp {
                offset_ok(lt, rt) && spec_ptr_chains_ok(lt) && spec_ptr_chains_ok(scale_type(rt))
            } else if rp {
                offset_ok(rt, lt) && spec_ptr_chains_ok(rt) && spec_ptr_chains_ok(scale_type(lt))
            } else {
                true
            }
        },
        _ => false,
    }
}

/// Whether `n` is what `new_add` makes of `l + r` at `token`: for two integers, their sum,
/// untyped, of the typed operands; with a pointer `po` and an integer `io` (in either order),
/// the typed sum of `po` and `io * size` (`size` being the size of what `po` points to), of
/// the type of `po`.
pub open spec fn add_shape(l: Node, r: Node, token: usize, n: Node) -> bool {
    let lt = typed_type(l).unwrap();
    let rt = typed_type(r).unwrap();
    &&& n.kind == Nodekind::AddNd
    &&& n.token == Some(token)
    &&& n.val is None
    &&& bare(n)
    &&& if lt.ptr_end is None && rt.ptr_end is None {
        &&& n.typ is None
        &&& child_as(Some(Box::new(l)), n.left)
        &&& child_as(Some(Box::new(r)), n.right)
    } else {
        let po = if lt.ptr_end is Some { l } else { r };
        let io = if lt.ptr_end is Some { r } else { l };
        let pt = if lt.ptr_end is Some { lt } else { rt };
        let it = if lt.ptr_end is Some { rt } else { lt };
        let at = spec_common_type(pt, scale_type(it));
        &&& n.typ == Some(pt)
        &&& casted_as(Some(Box::new(po)), n.left, at)
        &&& n.right matches Some(c) && c.left matches Some(m) && cast_shape(*c, *m, at)
            && scaled_shape(*m, pointee_size(pt), io, scale_type(it))
    }
}

/// Whether `new_sub` accepts `l - r`: both operands have types once typed; two pointers must
/// have the same type, refer to something with a size and have a common type; a pointer
/// minus an integer is as for `+`; an integer minus a pointer is refused.
pub open spec fn sub_ok(l: Node, r: Node) -> bool {
    match (typed_type(l), typed_type(r)) {
        (Some(lt), Some(rt)) => {
            let lp = lt.ptr_end is Some;
            let rp = rt.ptr_end is Some;
            if lp && rp {
                &&& type_eq(lt, rt)
                &&& lt.ptr_to is Some
                &&& has_bytes(*lt.ptr_to.unwrap())
                &&& arith_type(Some(lt), Some(rt)) is Some
            } else if lp {
                offset_ok(lt, rt)
            } else {
                !rp
            }
        },
        _ => false,
    }
}

/// Whether `n` is what `new_sub` makes of `l - r` at `token`: for two integers, their
/// difference, untyped, of the typed operands; for two pointers, an `int`: the typed
/// difference of the addresses divided by the size of what they point to; for a pointer
/// minus an integer, the typed pointer minus the typed `r * size`, of the type of the pointer.
pub open spec fn sub_shape(l: Node, r: Node, token: usize, n: Node) -> bool {
    let lt = typed_type(l).unwrap();
    let rt = typed_type(r).unwrap();
    &&& n.token == Some(token)
    &&& n.val is None
    &&& bare(n)
    &&& if lt.ptr_end is None && rt.ptr_end is None {
        &&& n.kind == Nodekind::SubNd
        &&& n.typ is None
        &&& child_as(Some(Box::new(l)), n.left)
        &&& child_as(Some(Box::new(r)), n.right)
    } else if rt.ptr_end is Some {
        let ct = arith_type(Some(lt), Some(rt)).unwrap();
        &&& n.kind == Nodekind::DivNd
        &&& n.typ == Some(spec_new(Type::Int))
        &&& n.left matches Some(d) && d.kind == Nodekind::SubNd && d.token is None && d.typ == Some(ct)
            && d.val is None && bare(*d) && casted_as(Some(Box::new(l)), d.left, ct) && casted_as(
            Some(Box::new(r)),
            d.right,
            ct,
        )
        &&& n.right matches Some(num) && num.kind == Nodekind::NumNd && num.val == Some(pointee_size(lt))
            && num.token is None && num.typ == Some(spec_new(Type::Int)) && bare(*num) && num.left is None
            && num.right is None
    } else {
        &&& n.kind == Nodekind::SubNd
        &&& n.typ == Some(lt)
        &&& child_as(Some(Box::new(l)), n.left)
        &&& n.right matches Some(m) && scaled_shape(*m, pointee_size(lt), r, scale_type(rt))
    }
}

/// A node with a type is typed as itself.
proof fn lemma_typed_fixed(o: Node, f: Node)
    requires
        o.typ is Some,
        typed_as(o, f),
    ensures
        f == o,
{
}

/// A conversion of the typed form of `a` is a conversion of `a` typed.
proof fn lemma_recast(a: Node, a1: Node, fc: Option<Box<Node>>, t: TypeCell)
    requires
        typed_as(a, a1),
        a1.typ is Some,
        casted_as(Some(Box::new(a1)), fc, t),
    ensures
        casted_as(Some(Box::new(a)), fc, t),
{
    let x = *fc.unwrap().left.unwrap();
    lemma_typed_fixed(a1, x);
}

/// The kinds of node that get a type: the expressions (statements, variables and
/// declarations get theirs elsewhere or none).
pub open spec fn typed_kind(k: Nodekind) -> bool {
    ||| int_kind(k)
    ||| k == Nodekind::AddrNd
    ||| k == Nodekind::DerefNd
    ||| k == Nodekind::AssignNd
    ||| k == Nodekind::AddNd
    ||| k == Nodekind::SubNd
    ||| k == Nodekind::BitNotNd
    ||| k == Nodekind::MulNd
    ||| k == Nodekind::DivNd
    ||| k == Nodekind::ModNd
    ||| k == Nodekind::BitAndNd
    ||| k == Nodekind::BitOrNd
    ||| k == Nodekind::BitXorNd
    ||| k == Nodekind::LShiftNd
    ||| k == Nodekind::RShiftNd
    ||| k == Nodekind::CommaNd
    ||| k == Nodekind::FunCallNd
    ||| k == Nodekind::ReturnNd
    ||| k == Nodekind::ZeroClrNd
}

/// The kinds of node whose value is always an `int`: numbers, logical operations and
/// comparisons.
pub open spec fn int_kind(k: Nodekind) -> bool {
    ||| k == Nodekind::NumNd
    ||| k == Nodekind::LogNotNd
    ||| k == Nodekind::LogAndNd
    ||| k == Nodekind::LogOrNd
    ||| k == Nodekind::EqNd
    ||| k == Nodekind::NEqNd
    ||| k == Nodekind::LThanNd
    ||| k == Nodekind::LEqNd
}

/// Gives a type to `node` and to every expression below it that has none yet, converting
/// operands to the types that operations need, or reports an expression that cannot have a
/// type (an address of something that is no variable, a dereference of something that is no
/// pointer, an assignment to an array, bit operations on pointers).
pub fn confirm_type(node: &mut Node, tokens: &Vec<Token>) -> (r: Result<(), CompileError>)
    ensures
        final(node).kind == old(node).kind,
        r is Ok <==> type_result(*old(node)) is Some,
        r is Ok ==> typed_as(*old(node), *final(node)),
        old(node).typ is Some ==> r is Ok && *final(node) == *old(node),
        r is Ok && old(node).typ is None && typed_kind(old(node).kind) ==> final(node).typ is Some,
        r is Ok && old(node).typ is None && int_kind(old(node).kind) ==> final(node).typ == Some(
            crate::typecell::spec_new(Type::Int),
        ),
        r is Ok && old(node).typ is None && !typed_kind(old(node).kind) ==> final(node).typ is None,
    decreases *old(node), 1int,
{
    if node.typ.is_some() {
        return Ok(());
    }
    let ghost o = *node;
    confirm_child(&mut node.left, tokens)?;
    confirm_child(&mut node.right, tokens)?;
    confirm_child(&mut node.init, tokens)?;
    confirm_child(&mut node.enter, tokens)?;
    confirm_child(&mut node.routine, tokens)?;
    confirm_child(&mut node.branch, tokens)?;
    confirm_child(&mut node.els, tokens)?;
    let ghost mid = *node;
    proof {
        assert(same_frame(o, mid));
        assert(own_type(mid, box_type(mid.left), box_type(mid.right)) == own_type(
            o,
            child_type(o.left),
            child_type(o.right),
        ));
    }
    let r = type_node(node, tokens);
    proof {
        if r is Ok {
            let f = *node;
            assert(f.typ == type_result(o).unwrap());
            if arith_kind(o.kind) {
                let t = arith_type(child_type(o.left), child_type(o.right)).unwrap();
                assert(casted_as(o.left, f.left, t));
                assert(casted_as(o.right, f.right, t));
            } else if o.kind == Nodekind::AssignNd {
                assert(casted_as(o.right, f.right, child_type(o.left).unwrap()));
            }
            assert(typed_as(o, f));
        }
    }
    r
}

/// Gives `node`, whose children are typed, its own type, converting its operands where the
/// operation needs it.
fn type_node(node: &mut Node, tokens: &Vec<Token>) -> (r: Result<(), CompileError>)
    requires
        old(node).typ is None,
    ensures
        same_frame(*old(node), *final(node)),
        final(node).init == old(node).init,
        final(node).enter == old(node).enter,
        final(node).routine == old(node).routine,
        final(node).branch == old(node).branch,
        final(node).els == old(node).els,
        r is Ok <==> own_type(*old(node), box_type(old(node).left), box_type(old(node).right)) is Some,
        r is Ok ==> final(node).typ == own_type(*old(node), box_type(old(node).left), box_type(old(node).right)).unwrap(),
        r is Ok ==> operands_as(old(node).kind, old(node).left, old(node).right, final(node).left, final(node).right),
{
    match node.kind {
        Nodekind::NumNd | Nodekind::LogNotNd | Nodekind::LogAndNd | Nodekind::LogOrNd => {
            node.typ = Some(TypeCell::new(Type::Int));
        },
        Nodekind::AddrNd => {
            let (is_var, lt) = match &node.left {
                Some(l) => (l.kind == Nodekind::DerefNd || l.kind == Nodekind::LvarNd, type_of(&node.left)),
                None => (false, None),
            };
            if !is_var {
                return Err(error_nod("\"&\" では変数として宣言された値のみ参照ができます。", node, tokens));
            }
            match lt {
                Some(t) => {
                    if t.chains == usize::MAX {
                        return Err(untyped(node, tokens));
                    }
                    node.typ = Some(t.make_ptr_to());
                },
                None => {
                    return Err(untyped(node, tokens));
                },
            }
        },
        Nodekind::DerefNd => {
            let t = match type_of(&node.left) {
                Some(t) => t,
                None => {
                    return Err(untyped(node, tokens));
                },
            };
            if t.ptr_end.is_some() && (t.typ == Type::Array || t.typ == Type::Ptr) && t.ptr_to.is_some() {
                match t.make_deref() {
                    Ok(d) => {
                        node.typ = Some(d);
                    },
                    Err(_) => {
                        return Err(untyped(node, tokens));
                    },
                }
            } else if t.ptr_end.is_some() {
                return Err(untyped(node, tokens));
            } else {
                let mut e = error_nod("\"*\"ではポインタの参照を外すことができますが、型\"", node, tokens);
                push_str(&mut e.msg, t.typ.name());
                push_str(&mut e.msg, "\"が指定されています。");
                return Err(e);
            }
        },
        Nodekind::AssignNd => {
            let lt = match type_of(&node.left) {
                Some(t) => t,
                None => {
                    return Err(untyped(node, tokens));
                },
            };
            if lt.is_array() {
                let mut e = match &node.left {
                    Some(l) => error_nod("左辺値は代入可能な型である必要がありますが、配列型\"", l, tokens),
                    None => error_nod("左辺値は代入可能な型である必要がありますが、配列型\"", node, tokens),
                };
                let ts = lt.type_string();
                push_chars(&mut e.msg, &ts);
                push_str(&mut e.msg, "\"が指定されています。");
                return Err(e);
            }
            if node.right.is_none() {
                return Err(untyped(node, tokens));
            }
            match node.right.take() {
                Some(r) => {
                    node.right = Some(Box::new(make_cast(*r, lt.copy())));
                },
                None => {},
            }
            node.typ = Some(lt);
        },
        Nodekind::AddNd | Nodekind::SubNd => {
            let typ = arith_cast(node, tokens)?;
            node.typ = Some(typ);
        },
        Nodekind::BitNotNd => {
            let t = match type_of(&node.left) {
                Some(t) => t,
                None => {
                    return Err(untyped(node, tokens));
                },
            };
            if t.ptr_end.is_some() {
                return Err(error_nod("ポインタのビット反転はできません。", node, tokens));
            }
            node.typ = Some(t);
        },
        Nodekind::MulNd | Nodekind::DivNd | Nodekind::ModNd | Nodekind::BitAndNd
        | Nodekind::BitOrNd | Nodekind::BitXorNd | Nodekind::LShiftNd | Nodekind::RShiftNd => {
            let typ = arith_cast(node, tokens)?;
            if typ.ptr_end.is_some() {
                return Err(error_nod("ポインタに対して行えない計算です。", node, tokens));
            }
            node.typ = Some(typ);
        },
        Nodekind::EqNd | Nodekind::NEqNd | Nodekind::LThanNd | Nodekind::LEqNd => {
            let _ = arith_cast(node, tokens)?;
            node.typ = Some(TypeCell::new(Type::Int));
        },
        Nodekind::CommaNd => {
            match type_of(&node.right) {
                Some(t) => {
                    node.typ = Some(t);
                },
                None => {
                    return Err(untyped(node, tokens));
                },
            }
        },
        Nodekind::FunCallNd => {
            let ret = match &node.func_typ {
                Some(f) => match &f.ret_typ {
                    Some(r) => Some(r.copy()),
                    None => None,
                },
                None => None,
            };
            match ret {
                Some(t) => {
                    node.typ = Some(t);
                },
                None => {
                    return Err(untyped(node, tokens));
                },
            }
        },
        Nodekind::ReturnNd | Nodekind::ZeroClrNd => {
            match type_of(&node.left) {
                Some(t) => {
                    node.typ = Some(t);
                },
                None => {
                    return Err(untyped(node, tokens));
                },
            }
        },
        _ => {},
    }
    Ok(())
}


/// The token stream of the parser state is usable and its tokens are those of `o`.
pub open spec fn same_tokens(o: Parser, f: Parser) -> bool {
    f.token_ptr.tokens == o.token_ptr.tokens
}

/// The position of the current token.
fn here(p: &Parser) -> (r: usize)
    ensures
        r == p.token_ptr.pos,
{
    p.token_ptr.pos
}

/// `left` + `right`: pointer arithmetic scales the integer operand by the size of what the
/// pointer refers to (an integer plus a pointer is read as the pointer plus the integer);
/// adding two pointers is an error.
fn new_add(p: &mut Parser, left: Node, right: Node, token: usize) -> (r: Result<Node, CompileError>)
    ensures
        *final(p) == *old(p),
        r is Ok <==> add_ok(left, right),
        r matches Ok(n) ==> add_shape(left, right, token, n),
{
    let ghost l0 = left;
    let ghost r0 = right;
    let mut left = left;
    let mut right = right;
    confirm_type(&mut left, &p.token_ptr.tokens)?;
    confirm_type(&mut right, &p.token_ptr.tokens)?;
    proof {
        lemma_typed_type(l0, left);
        lemma_typed_type(r0, right);
    }
    let left_is_ptr = match &left.typ {
        Some(t) => t.ptr_end.is_some(),
        None => {
            return Err(untyped(&left, &p.token_ptr.tokens));
        },
    };
    let right_is_ptr = match &right.typ {
        Some(t) => t.ptr_end.is_some(),
        None => {
            return Err(untyped(&right, &p.token_ptr.tokens));
        },
    };
    if left_is_ptr && right_is_ptr {
        return Err(error_at_token(p, token, "ポインタ演算は整数型との加算か、ポインタ同士の引き算のみ可能です。"));
    }
    if !left_is_ptr && !right_is_ptr {
        return Ok(new_binary(Nodekind::AddNd, left, right, Some(token)));
    }
    let ghost po = if left_is_ptr { l0 } else { r0 };
    let ghost io = if left_is_ptr { r0 } else { l0 };
    if !left_is_ptr {
        let tmp = left;
        left = right;
        right = tmp;
    }
    let ptr_cell = match &left.typ {
        Some(t) => t.copy(),
        None => {
            return Err(untyped(&left, &p.token_ptr.tokens));
        },
    };
    let bytes = match &ptr_cell.ptr_to {
        Some(t) => match t.try_bytes() {
            Some(b) => b,
            None => {
                return Err(untyped(&left, &p.token_ptr.tokens));
            },
        },
        None => {
            return Err(untyped(&left, &p.token_ptr.tokens));
        },
    };
    let ghost it = right.typ.unwrap();
    let ghost l1 = left;
    let ghost r1 = right;
    let pointer_offset = new_binary(Nodekind::MulNd, new_num(bytes as i32, None), right, None);
    let ghost pm = pointer_offset;
    let mut add = new_binary(Nodekind::AddNd, left, pointer_offset, Some(token));
    let ghost a0 = add;
    proof {
        let num = *pm.left.unwrap();
        assert(type_result(num) == Some(num.typ));
        assert(type_result(r1) == Some(r1.typ));
        assert(child_type(pm.left) == Some(spec_new(Type::Int)));
        assert(child_type(pm.right) == Some(it));
        assert(type_result(pm) == own_type(pm, Some(spec_new(Type::Int)), Some(it)));
        assert(type_result(l1) == Some(l1.typ));
        assert(child_type(a0.left) == Some(ptr_cell));
        assert(child_ok(a0.right) == (type_result(pm) is Some));
        assert(child_type(a0.right) == typed_type(pm));
    }
    confirm_type(&mut add, &p.token_ptr.tokens)?;
    proof {
        let mt = scale_type(it);
        let at = spec_common_type(ptr_cell, mt);
        assert(type_result(pm) == Some(Some(mt)));
        assert(typed_as(pm, *add.right.unwrap().left.unwrap()));
        lemma_recast(po, l1, add.left, at);
        let m = *add.right.unwrap().left.unwrap();
        assert(casted_as(pm.right, m.right, mt));
        lemma_recast(io, r1, m.right, mt);
        let num = *pm.left.unwrap();
        assert(casted_as(pm.left, m.left, mt));
        lemma_typed_fixed(num, *m.left.unwrap().left.unwrap());
        assert(scaled_shape(m, pointee_size(ptr_cell), io, mt));
    }
    add.typ = Some(ptr_cell);
    Ok(add)
}

/// `left` - `right`: a pointer minus an integer scales the integer; a pointer minus a
/// pointer of the same type gives the number of elements between them; an integer minus a
/// pointer, and pointers of different types, are errors.
fn new_sub(p: &mut Parser, left: Node, right: Node, token: usize) -> (r: Result<Node, CompileError>)
    ensures
        *final(p) == *old(p),
        r is Ok <==> sub_ok(left, right),
        r matches Ok(n) ==> sub_shape(left, right, token, n),
{
    let ghost l0 = left;
    let ghost r0 = right;
    let mut left = left;
    let mut right = right;
    confirm_type(&mut left, &p.token_ptr.tokens)?;
    confirm_type(&mut right, &p.token_ptr.tokens)?;
    proof {
        lemma_typed_type(l0, left);
        lemma_typed_type(r0, right);
    }
    let left_typ = match &left.typ {
        Some(t) => t.copy(),
        None => {
            return Err(untyped(&left, &p.token_ptr.tokens));
        },
    };
    let right_typ = match &right.typ {
        Some(t) => t.copy(),
        None => {
            return Err(untyped(&right, &p.token_ptr.tokens));
        },
    };
    let left_is_ptr = left_typ.ptr_end.is_some();
    let right_is_ptr = right_typ.ptr_end.is_some();
    if !left_is_ptr && !right_is_ptr {
        return Ok(new_binary(Nodekind::SubNd, left, right, Some(token)));
    }
    let ghost l1 = left;
    let ghost r1 = right;
    if left_is_ptr && right_is_ptr {
        if !type_cell_eq(&left_typ, &right_typ) {
            let mut mid = left_typ.type_string();
            push_str(&mut mid, "\", \"");
            let rs = right_typ.type_string();
            push_chars(&mut mid, &rs);
            return Err(error_at_token3(p, token, "違う型へのポインタ同士の演算はサポートされません。: \"", &mid, "\""));
        }
        let bytes = match &left_typ.ptr_to {
            Some(t) => match t.try_bytes() {
                Some(b) => b,
                None => {
                    return Err(untyped(&left, &p.token_ptr.tokens));
                },
            },
            None => {
                return Err(untyped(&left, &p.token_ptr.tokens));
            },
        };
        let mut pointer_offset = new_binary(Nodekind::SubNd, left, right, None);
        let ghost d0 = pointer_offset;
        proof {
            assert(type_result(l1) == Some(l1.typ));
            assert(type_result(r1) == Some(r1.typ));
            assert(child_type(d0.left) == Some(left_typ));
            assert(child_type(d0.right) == Some(right_typ));
        }
        confirm_type(&mut pointer_offset, &p.token_ptr.tokens)?;
        proof {
            let ct = arith_type(Some(left_typ), Some(right_typ)).unwrap();
            lemma_recast(l0, l1, pointer_offset.left, ct);
            lemma_recast(r0, r1, pointer_offset.right, ct);
        }
        let mut sub = new_binary(Nodekind::DivNd, pointer_offset, new_num(bytes as i32, None), Some(token));
        sub.typ = Some(TypeCell::new(Type::Int));
        return Ok(sub);
    }
    if !left_is_ptr {
        return Err(error_at_token(p, token, "整数型の値からポインタを引くことはできません。"));
    }
    let bytes = match &left_typ.ptr_to {
        Some(t) => match t.try_bytes() {
            Some(b) => b,
            None => {
                return Err(untyped(&left, &p.token_ptr.tokens));
            },
        },
        None => {
            return Err(untyped(&left, &p.token_ptr.tokens));
        },
    };
    let mut pointer_offset = new_binary(Nodekind::MulNd, new_num(bytes as i32, None), right, None);
    let ghost pm = pointer_offset;
    proof {
        let num = *pm.left.unwrap();
        assert(type_result(num) == Some(num.typ));
        assert(type_result(r1) == Some(r1.typ));
        assert(child_type(pm.left) == Some(spec_new(Type::Int)));
        assert(child_type(pm.right) == Some(right_typ));
    }
    confirm_type(&mut pointer_offset, &p.token_ptr.tokens)?;
    proof {
        let mt = scale_type(right_typ);
        let m = pointer_offset;
        lemma_recast(r0, r1, m.right, mt);
        let num = *pm.left.unwrap();
        lemma_typed_fixed(num, *m.left.unwrap().left.unwrap());
        assert(scaled_shape(m, pointee_size(left_typ), r0, mt));
    }
    let mut sub = new_binary(Nodekind::SubNd, left, pointer_offset, Some(token));
    sub.typ = Some(left_typ);
    Ok(sub)
}

/// `left` op= `right`, read as `tmp = &left, *tmp = *tmp op right` with a temporary pointer
/// variable; a plain assignment for `=`.
fn assign_op(p: &mut Parser, kind: Nodekind, left: Node, right: Node, token: Option<usize>) -> (r: Result<Node, CompileError>)
    requires
        parser_wf(*old(p)),
    ensures
        parser_wf(*final(p)),
        same_tokens(*old(p), *final(p)),
        final(p).token_ptr.pos == old(p).token_ptr.pos,
        keeps(*old(p), *final(p)),
        r matches Ok(n) ==> n.token == token && n.kind == (if kind == Nodekind::AssignNd {
            Nodekind::AssignNd
        } else {
            Nodekind::CommaNd
        }),
        kind == Nodekind::AssignNd ==> (r is Ok <==> assign_ok(left, right)),
        kind == Nodekind::AssignNd ==> (r matches Ok(n) ==> assign_shape(left, right, token, n)),
        kind == Nodekind::AssignNd ==> *final(p) == *old(p),
        (kind == Nodekind::AddNd || kind == Nodekind::SubNd) && token is Some && int_var(left) && int_num(right)
            && temp_room(*old(p)) ==> (r matches Ok(n) && n.typ == Some(spec_new(Type::Int))),
        kind != Nodekind::AssignNd && kind != Nodekind::CastNd ==> (token matches Some(t) ==> (r matches Ok(n) ==> compound(
            shape(n),
            kind,
            t as int,
            shape(left),
            shape(right),
        ))),
{
    let ghost l0 = left;
    let ghost r0 = right;
    let mut left = left;
    let mut right = right;
    confirm_type(&mut left, &p.token_ptr.tokens)?;
    confirm_type(&mut right, &p.token_ptr.tokens)?;
    proof {
        lemma_typed_type(l0, left);
        lemma_typed_type(r0, right);
        lemma_typed_result(l0, left);
        lemma_typed_result(r0, right);
    }
    let ghost l1 = left;
    let ghost r1 = right;
    let mut node = if kind == Nodekind::AssignNd {
        let a = new_binary(Nodekind::AssignNd, left, right, token);
        proof {
            assert(child_type(a.left) == l1.typ);
            assert(child_type(a.right) == r1.typ);
        }
        let mut a = a;
        let ghost a0 = a;
        confirm_type(&mut a, &p.token_ptr.tokens)?;
        proof {
            let t = l1.typ.unwrap();
            let x = *a.right.unwrap().left.unwrap();
            assert(casted_as(a0.right, a.right, t));
            lemma_typing_idempotent(r0, r1, x);
            lemma_typing_idempotent(l0, l1, *a.left.unwrap());
        }
        return Ok(a);
    } else {
        let typ = match &left.typ {
            Some(t) => t.copy(),
            None => {
                return Err(untyped(&left, &p.token_ptr.tokens));
            },
        };
        if typ.chains == usize::MAX {
            return Err(untyped(&left, &p.token_ptr.tokens));
        }
        let mut tmp_lvar = make_lvar(p, Vec::new(), None, None, true)?;
        tmp_lvar.typ = Some(typ.make_ptr_to());
        proof {
            lemma_shape_top(tmp_lvar);
        }
        let tmp_lvar2 = tmp_lvar.copy();
        let tmp_deref = new_unary(Nodekind::DerefNd, tmp_lvar, None);
        proof {
            lemma_shape_top(tmp_deref);
        }
        let tmp_deref2 = tmp_deref.copy();
        let addr = new_unary(Nodekind::AddrNd, left, None);
        let mut expr_left = new_binary(
            Nodekind::AssignNd,
            tmp_lvar2,
            addr,
            None,
        );
        proof {
            lemma_typing_keeps_shape(l0, l1);
            lemma_typing_keeps_shape(r0, r1);
            lemma_shape_top(addr);
            lemma_shape_top(expr_left);
        }
        let ghost (d0, rr) = (tmp_deref, right);
        let ghost int_case = int_var(l0) && int_num(r0) && (kind == Nodekind::AddNd || kind == Nodekind::SubNd);
        proof {
            if int_case {
                assert(type_result(tmp_lvar) == Some(tmp_lvar.typ));
                assert(child_type(tmp_deref.left) == Some(spec_ptr_to(spec_new(Type::Int))));
                assert(type_result(tmp_deref) == Some(Some(spec_new(Type::Int))));
                assert(typed_type(d0) == Some(spec_new(Type::Int)));
                assert(type_result(rr) == Some(rr.typ));
                assert(typed_type(rr) == Some(spec_new(Type::Int)));
                assert(type_result(l1) == Some(l1.typ));
                assert(child_type(addr.left) == Some(spec_new(Type::Int)));
                assert(type_result(addr) == Some(Some(spec_ptr_to(spec_new(Type::Int)))));
                assert(type_result(tmp_lvar2) == Some(tmp_lvar2.typ));
                assert(type_result(expr_left) is Some);
            }
        }
        let tk = match token {
            Some(t) => t,
            None => p.token_ptr.pos,
        };
        let op = if kind == Nodekind::AddNd {
            let o = new_add(p, tmp_deref, right, tk)?;
            proof {
                lemma_add_shape(d0, rr, tk, o);
            }
            o
        } else if kind == Nodekind::SubNd {
            let o = new_sub(p, tmp_deref, right, tk)?;
            proof {
                lemma_sub_shape(d0, rr, tk, o);
            }
            o
        } else {
            let o = new_binary(kind, tmp_deref, right, token);
            proof {
                if kind != Nodekind::CastNd {
                    lemma_shape_top(o);
                }
            }
            o
        };
        proof {
            if token is Some && kind != Nodekind::CastNd {
                assert(operation(shape(op), kind, tk as int, temp_target(), shape(r0)));
            }
        }
        let mut expr_right = new_binary(Nodekind::AssignNd, tmp_deref2, op, None);
        proof {
            lemma_shape_top(expr_right);
            if int_case {
                let x = *tmp_deref2.left.unwrap();
                assert(type_result(x) == Some(x.typ));
                assert(type_result(tmp_deref2) == Some(Some(spec_new(Type::Int))));
                let ol = *op.left.unwrap();
                let or = *op.right.unwrap();
                assert(child_as(Some(Box::new(d0)), op.left));
                assert(child_as(Some(Box::new(rr)), op.right));
                lemma_typed_type(d0, ol);
                lemma_typed_type(rr, or);
                assert(type_result(ol) == Some(ol.typ));
                assert(type_result(or) == Some(or.typ));
                assert(type_result(op) is Some);
                assert(type_result(expr_right) == Some(Some(spec_new(Type::Int))));
            }
        }
        let ghost (el0, er0) = (expr_left, expr_right);
        confirm_type(&mut expr_left, &p.token_ptr.tokens)?;
        confirm_type(&mut expr_right, &p.token_ptr.tokens)?;
        let c = new_binary(Nodekind::CommaNd, expr_left, expr_right, token);
        proof {
            lemma_typing_keeps_shape(el0, expr_left);
            lemma_typing_keeps_shape(er0, expr_right);
            lemma_shape_top(c);
        }
        c
    };
    let ghost node0 = node;
    confirm_type(&mut node, &p.token_ptr.tokens)?;
    proof {
        lemma_typing_keeps_shape(node0, node);
    }
    Ok(node)
}

/// `i++`, `i--` (read as `(i += 1) - 1` and `(i -= 1) + 1`) and `++i`, `--i` (read as
/// `i += 1` and `i -= 1`).
fn inc_dec(p: &mut Parser, node: Node, is_inc: bool, is_prefix: bool, token: usize) -> (r: Result<Node, CompileError>)
    requires
        parser_wf(*old(p)),
    ensures
        parser_wf(*final(p)),
        same_tokens(*old(p), *final(p)),
        final(p).token_ptr.pos == old(p).token_ptr.pos,
        keeps(*old(p), *final(p)),
        r matches Ok(n) ==> n.token == Some(token) && n.kind == (if is_prefix {
            Nodekind::CommaNd
        } else if is_inc {
            Nodekind::SubNd
        } else {
            Nodekind::AddNd
        }),
        int_var(node) && temp_room(*old(p)) ==> r is Ok,
        r matches Ok(n) ==> is_prefix ==> compound(
            shape(n),
            if is_inc { Nodekind::AddNd } else { Nodekind::SubNd },
            token as int,
            shape(node),
            one(),
        ),
        r matches Ok(n) ==> !is_prefix ==> plus_one(
            shape(n),
            if is_inc { Nodekind::SubNd } else { Nodekind::AddNd },
            token as int,
            lhs(shape(n)),
        ) && compound(lhs(shape(n)), if is_inc { Nodekind::AddNd } else { Nodekind::SubNd }, token as int, shape(node), one()),
{
    let kind = if is_inc {
        Nodekind::AddNd
    } else {
        Nodekind::SubNd
    };
    let ghost n0 = node;
    let mut node = node;
    confirm_type(&mut node, &p.token_ptr.tokens)?;
    proof {
        lemma_typing_keeps_shape(n0, node);
    }
    let first = new_num(1, None);
    proof {
        lemma_shape_top(first);
    }
    if is_prefix {
        assign_op(p, kind, node, first, Some(token))
    } else {
        let a = assign_op(p, kind, node, first, Some(token))?;
        let one = new_num(1, None);
        proof {
            assert(type_result(one) == Some(one.typ));
            lemma_shape_top(one);
        }
        let ghost (a0, o0) = (a, one);
        proof {
            if int_var(n0) && temp_room(*old(p)) {
                assert(type_result(a0) == Some(a0.typ));
                assert(type_result(o0) == Some(o0.typ));
            }
        }
        if is_inc {
            let n = new_sub(p, a, one, token)?;
            proof {
                lemma_sub_shape(a0, o0, token, n);
            }
            Ok(n)
        } else {
            let n = new_add(p, a, one, token)?;
            proof {
                lemma_add_shape(a0, o0, token, n);
            }
            Ok(n)
        }
    }
}


/// Whether every tree of `s` is typed: typing it again changes nothing.
pub open spec fn all_typed(s: Seq<Node>) -> bool {
    forall|i: int| 0 <= i < s.len() ==> type_result(#[trigger] s[i]) == Some(s[i].typ)
}

/// Statements until the end of input, each typed (used to read bare statements).
pub fn parse_stmts(p: &mut Parser) -> (r: Result<Vec<Node>, CompileError>)
    requires
        parser_wf(*old(p)),
    ensures
        adv(*old(p), *final(p)),
        r is Ok ==> crate::token::cur(final(p).token_ptr).kind == Tokenkind::Eof,
        r matches Ok(stmts) ==> all_typed(stmts@),
        cur(old(p).token_ptr).kind == Tokenkind::Eof ==> (r matches Ok(stmts) && stmts@.len() == 0 && *final(p) == *old(p)),
{
    let mut stmts: Vec<Node> = Vec::new();
    while !at_eof(&p.token_ptr)
        invariant
            adv(*old(p), *p),
            all_typed(stmts@),
            cur(old(p).token_ptr).kind == Tokenkind::Eof ==> *p == *old(p) && stmts@.len() == 0,
        decreases rem(*p),
    {
        let mut s = stmt(p)?;
        let ghost s0 = s;
        confirm_type(&mut s, &p.token_ptr.tokens)?;
        proof {
            lemma_typed_result(s0, s);
        }
        let ghost before = stmts@;
        stmts.push(s);
        proof {
            assert forall|i: int| 0 <= i < stmts@.len() implies type_result(#[trigger] stmts@[i]) == Some(stmts@[i].typ) by {
                if i < before.len() {
                    assert(stmts@[i] == before[i]);
                }
            }
        }
    }
    Ok(stmts)
}

/// The current token is none of the operators that `mul` reads: `*`, `/`, `%`.
pub open spec fn past_mul(ts: TokenStream) -> bool {
    !spec_is(ts, "*"@) && !spec_is(ts, "/"@) && !spec_is(ts, "%"@)
}

/// The current token is none of the operators that `add` reads or below: `+`, `-`.
pub open spec fn past_add(ts: TokenStream) -> bool {
    past_mul(ts) && !spec_is(ts, "+"@) && !spec_is(ts, "-"@)
}

/// The current token is none of the operators that `shift` reads or below: `<<`, `>>`.
pub open spec fn past_shift(ts: TokenStream) -> bool {
    past_add(ts) && !spec_is(ts, "<<"@) && !spec_is(ts, ">>"@)
}

/// The current token is none of the operators that `relational` reads or below: `<`, `<=`,
/// `>`, `>=`.
pub open spec fn past_relational(ts: TokenStream) -> bool {
    past_shift(ts) && !spec_is(ts, "<"@) && !spec_is(ts, "<="@) && !spec_is(ts, ">"@) && !spec_is(ts, ">="@)
}

/// The current token is none of the operators that `bitand` reads or below: `&`.
pub open spec fn past_bitand(ts: TokenStream) -> bool {
    past_relational(ts) && !spec_is(ts, "&"@)
}

/// The current token is none of the operators that `bitxor` reads or below: `^`.
pub open spec fn past_bitxor(ts: TokenStream) -> bool {
    past_bitand(ts) && !spec_is(ts, "^"@)
}

/// The current token is none of the operators that `bitor` reads or below: `|`.
pub open spec fn past_bitor(ts: TokenStream) -> bool {
    past_bitxor(ts) && !spec_is(ts, "|"@)
}

/// The current token is none of the operators that `logand` reads or below: `&&`.
pub open spec fn past_logand(ts: TokenStream) -> bool {
    past_bitor(ts) && !spec_is(ts, "&&"@)
}

/// The current token is none of the operators that `logor` reads or below: `||`.
pub open spec fn past_logor(ts: TokenStream) -> bool {
    past_logand(ts) && !spec_is(ts, "||"@)
}

/// The current token is none of the operators that `assign` reads or below: `=` and the
/// compound assignments.
pub open spec fn past_assign(ts: TokenStream) -> bool {
    &&& past_logor(ts)
    &&& !spec_is(ts, "="@) && !spec_is(ts, "+="@) && !spec_is(ts, "-="@) && !spec_is(ts, "*="@)
    &&& !spec_is(ts, "/="@) && !spec_is(ts, "%="@) && !spec_is(ts, "&="@) && !spec_is(ts, "^="@)
    &&& !spec_is(ts, "|="@) && !spec_is(ts, "<<="@) && !spec_is(ts, ">>="@)
}

/// The current token is none of the operators that `expr` reads or below: the comma too.
pub open spec fn past_expr(ts: TokenStream) -> bool {
    past_assign(ts) && !spec_is(ts, ","@)
}

/// The stream `ts` read from one token further on.
pub open spec fn next_of(ts: TokenStream) -> TokenStream {
    TokenStream { tokens: ts.tokens, pos: (ts.pos + 1) as usize }
}

/// The token after the current one of `ts` is none of the operators that `assign` reads or
/// below (nor `==`, `!=`, `++`, `--`): an operand at the current token is a whole assignment
/// expression.
pub open spec fn ends_assign_operand(ts: TokenStream) -> bool {
    let a = next_of(ts);
    &&& past_assign(a)
    &&& !spec_is(a, "=="@) && !spec_is(a, "!="@) && !spec_is(a, "++"@) && !spec_is(a, "--"@)
}

/// The token after the current one of `ts` is no operator, nor a comma: an operand at the
/// current token stands alone.
pub open spec fn ends_operand(ts: TokenStream) -> bool {
    ends_assign_operand(ts) && !spec_is(next_of(ts), ","@)
}

/// The current token is a number, or a declared variable (neither called nor subscripted).
pub open spec fn simple_operand(p: Parser) -> bool {
    let ts = p.token_ptr;
    ||| cur(ts).kind == Tokenkind::Num
    ||| cur(ts).kind == Tokenkind::Ident && !op_at(ts, 1, "("@) && !op_at(ts, 1, "["@) && var_lookup(
        p,
        cur_body(ts),
    ) is Some
}

/// A number or a variable followed by `;` stands alone.
proof fn lemma_semicolon_ends_operand(ts: TokenStream)
    requires
        ts.pos < ts.tokens@.len(),
        op_at(ts, 1, ";"@),
    ensures
        ends_operand(ts),
{
    reveal_strlit(";");
    reveal_strlit("%");
    reveal_strlit("%=");
    reveal_strlit("&");
    reveal_strlit("&&");
    reveal_strlit("&=");
    reveal_strlit("*");
    reveal_strlit("*=");
    reveal_strlit("+");
    reveal_strlit("+=");
    reveal_strlit(",");
    reveal_strlit("-");
    reveal_strlit("-=");
    reveal_strlit("/");
    reveal_strlit("/=");
    reveal_strlit("<");
    reveal_strlit("<<");
    reveal_strlit("<<=");
    reveal_strlit("<=");
    reveal_strlit("=");
    reveal_strlit(">");
    reveal_strlit(">=");
    reveal_strlit(">>");
    reveal_strlit(">>=");
    reveal_strlit("^");
    reveal_strlit("^=");
    reveal_strlit("|");
    reveal_strlit("|=");
    reveal_strlit("||");
    reveal_strlit("==");
    reveal_strlit("!=");
    reveal_strlit("++");
    reveal_strlit("--");
    assert(";"@[0] != "%"@[0]);
    assert(";"@[0] != "&"@[0]);
    assert(";"@[0] != "*"@[0]);
    assert(";"@[0] != "+"@[0]);
    assert(";"@[0] != ","@[0]);
    assert(";"@[0] != "-"@[0]);
    assert(";"@[0] != "/"@[0]);
    assert(";"@[0] != "<"@[0]);
    assert(";"@[0] != "="@[0]);
    assert(";"@[0] != ">"@[0]);
    assert(";"@[0] != "^"@[0]);
    assert(";"@[0] != "|"@[0]);
    assert(";"@.len() == 1);
    assert(ts.tokens@.len() == ts.tokens.len());
    let a = next_of(ts);
    assert(a.pos == ts.pos + 1);
    assert(cur(a)@.body == Some(";"@));
    assert(";"@ != "%"@);
    assert(";"@ != "%="@);
    assert(";"@ != "&"@);
    assert(";"@ != "&&"@);
    assert(";"@ != "&="@);
    assert(";"@ != "*"@);
    assert(";"@ != "*="@);
    assert(";"@ != "+"@);
    assert(";"@ != "+="@);
    assert(";"@ != ","@);
    assert(";"@ != "-"@);
    assert(";"@ != "-="@);
    assert(";"@ != "/"@);
    assert(";"@ != "/="@);
    assert(";"@ != "<"@);
    assert(";"@ != "<<"@);
    assert(";"@ != "<<="@);
    assert(";"@ != "<="@);
    assert(";"@ != "="@);
    assert(";"@ != ">"@);
    assert(";"@ != ">="@);
    assert(";"@ != ">>"@);
    assert(";"@ != ">>="@);
    assert(";"@ != "^"@);
    assert(";"@ != "^="@);
    assert(";"@ != "|"@);
    assert(";"@ != "|="@);
    assert(";"@ != "||"@);
    assert(";"@ != "=="@);
    assert(";"@ != "!="@);
    assert(";"@ != "++"@);
    assert(";"@ != "--"@);
}

/// The current token of `p` is an operand that stands alone: a number or a declared variable,
/// followed by no operator.
pub open spec fn lone_operand(p: Parser) -> bool {
    simple_operand(p) && ends_operand(p.token_ptr)
}

/// The current token of `p` is a number or a declared variable that makes up a whole
/// assignment expression: what follows it may be a comma, but no other operator.
pub open spec fn assign_operand(p: Parser) -> bool {
    simple_operand(p) && ends_assign_operand(p.token_ptr)
}

/// The token after the current one of `ts` is none of the operators that `mul` reads or below
/// (nor `++`, `--`).
pub open spec fn ends_mul_operand(ts: TokenStream) -> bool {
    let a = next_of(ts);
    &&& past_mul(a)
    &&& !spec_is(a, "++"@) && !spec_is(a, "--"@)
}

/// The current token of `p` is a number or a declared variable that makes up a whole
/// multiplicative expression.
pub open spec fn mul_operand(p: Parser) -> bool {
    simple_operand(p) && ends_mul_operand(p.token_ptr)
}

/// The tokens from the current one on are `k + 1` numbers joined by `+` or `-` (so that each
/// but the last is a whole multiplicative expression), the last one followed by no operator
/// that `assign` reads or below.
pub open spec fn number_sum(ts: TokenStream, k: nat) -> bool {
    &&& forall|j: int|
        0 <= j <= k ==> (#[trigger] ts.tokens@[ts.pos + 2 * j]).kind == Tokenkind::Num && (j < k ==> (op_at(
            ts,
            2 * j + 1,
            "+"@,
        ) || op_at(ts, 2 * j + 1, "-"@)) && ends_mul_operand(TokenStream { tokens: ts.tokens, pos: (ts.pos + 2 * j) as usize }))
    &&& ends_assign_operand(TokenStream { tokens: ts.tokens, pos: (ts.pos + 2 * k) as usize })
}

/// The first number of a sum of `k + 1` numbers is a whole multiplicative expression.
proof fn lemma_sum_first(o: Parser, k: nat)
    requires
        number_sum(o.token_ptr, k),
    ensures
        mul_operand(o),
        cur(o.token_ptr).kind == Tokenkind::Num,
{
    assert(o.token_ptr.tokens@[o.token_ptr.pos + 2 * 0] == o.token_ptr.tokens@[o.token_ptr.pos as int]);
    assert(TokenStream { tokens: o.token_ptr.tokens, pos: (o.token_ptr.pos + 2 * 0) as usize } == o.token_ptr);
    if k == 0 {
        assert(TokenStream { tokens: o.token_ptr.tokens, pos: (o.token_ptr.pos + 2 * k) as usize } == o.token_ptr);
    }
}

/// Where a sum of `k + 1` numbers has been read up to its `i`-th number (`at`) and a sign has
/// been read after it (`p`), there is a next number, and it is a whole multiplicative
/// expression.
proof fn lemma_sum_next(o: Parser, at: Parser, p: Parser, i: nat, k: nat)
    requires
        number_sum(o.token_ptr, k),
        i <= k,
        at.token_ptr.tokens == o.token_ptr.tokens,
        at.token_ptr.pos == o.token_ptr.pos + 2 * i + 1,
        spec_is(at.token_ptr, "+"@) || spec_is(at.token_ptr, "-"@),
        p.token_ptr.tokens == o.token_ptr.tokens,
        p.token_ptr.pos == at.token_ptr.pos + 1,
    ensures
        i < k,
        mul_operand(p),
        cur(p.token_ptr).kind == Tokenkind::Num,
{
    let last = TokenStream { tokens: o.token_ptr.tokens, pos: (o.token_ptr.pos + 2 * k) as usize };
    if i == k {
        assert(ends_assign_operand(last));
        assert(next_of(last) == at.token_ptr);
    }
    let j = i + 1;
    assert(o.token_ptr.tokens@[o.token_ptr.pos + 2 * j].kind == Tokenkind::Num);
    assert(TokenStream { tokens: o.token_ptr.tokens, pos: (o.token_ptr.pos + 2 * j) as usize } == p.token_ptr);
    if j == k {
        assert(last == p.token_ptr);
    }
}

/// The tokens from the current one on are `k + 1` numbers or declared variables separated by
/// commas, followed by no operator.
pub open spec fn operand_list(p: Parser, k: nat) -> bool
    decreases k,
{
    if k == 0 {
        lone_operand(p)
    } else {
        assign_operand(p) && op_at(p.token_ptr, 1, ","@) && operand_list(shifted(p, 2), (k - 1) as nat)
    }
}

/// `p` reading from `k` tokens further on, with nothing else changed.
pub open spec fn shifted(p: Parser, k: int) -> Parser {
    Parser { token_ptr: TokenStream { tokens: p.token_ptr.tokens, pos: (p.token_ptr.pos + k) as usize }, ..p }
}

/// Where the current token of `o` is a number, `n` is that number; where it is a declared
/// variable, `n` has the variable's type.
pub open spec fn num_read(o: Parser, n: Node) -> bool {
    &&& cur(o.token_ptr).kind == Tokenkind::Num ==> n.kind == Nodekind::NumNd && n.val == cur(o.token_ptr).val
        && n.typ == Some(spec_new(Type::Int))
    &&& cur(o.token_ptr).kind == Tokenkind::Ident ==> (var_lookup(o, cur_body(o.token_ptr)) matches Some(v)
        && n.typ == Some(v.0))
}

/// `n` is a variable of type `int` (a leaf).
pub open spec fn int_var(n: Node) -> bool {
    &&& n.kind == Nodekind::LvarNd
    &&& n.typ == Some(spec_new(Type::Int))
    &&& n.left is None && n.right is None
}

/// `n` is a number of type `int` (a leaf).
pub open spec fn int_num(n: Node) -> bool {
    &&& n.kind == Nodekind::NumNd
    &&& n.typ == Some(spec_new(Type::Int))
    &&& n.left is None && n.right is None
}

/// A compound assignment can have its temporary: one exists already, or there is room for
/// it in the frame.
pub open spec fn temp_room(p: Parser) -> bool {
    ||| exists|i: int| 0 <= i < p.locals@.len() && (#[trigger] p.locals@[i]).name@ == Seq::<char>::empty()
    ||| new_slot(p.lvar_max_offset, None) is Some
}

/// `f` is `o` having read one token and changed nothing else.
pub open spec fn read_one(o: Parser, f: Parser) -> bool {
    &&& f.token_ptr.tokens == o.token_ptr.tokens
    &&& f.token_ptr.pos == o.token_ptr.pos + 1
    &&& f.locals == o.locals
    &&& f.globals == o.globals
    &&& f.lvar_max_offset == o.lvar_max_offset
    &&& f.literals == o.literals
}

/// expr = assign ("," expr)?
pub fn expr(p: &mut Parser) -> (r: Result<Node, CompileError>)
    requires
        parser_wf(*old(p)),
    ensures
        adv(*old(p), *final(p)),
        r is Ok ==> progressed(*old(p), *final(p)),
        r is Ok ==> past_expr(final(p).token_ptr),
        r matches Ok(n) ==> reads_expr(toks_of(*old(p)), pos_of(*old(p)), pos_of(*final(p)), shape(n)),
        lone_operand(*old(p)) ==> r is Ok && read_one(*old(p), *final(p)) && num_read(*old(p), r->Ok_0),
        forall|k: nat|
            #[trigger] operand_list(*old(p), k) ==> (r matches Ok(n) && *final(p) == shifted(*old(p), 2 * k + 1int)
                && final(p).token_ptr.pos == old(p).token_ptr.pos + 2 * k + 1 && (k
                > 0 ==> n.kind == Nodekind::CommaNd)),
    decreases rem(*old(p)), 70int,
{
    let ghost o = *p;
    let node = assign(p)?;
    let ptr = here(p);
    if consume(&mut p.token_ptr, ",") {
        let ghost mid = *p;
        proof {
            if assign_operand(o) {
                assert(mid == shifted(o, 2));
            }
            assert forall|k: nat| #[trigger] operand_list(o, k) implies k > 0 && operand_list(mid, (k - 1) as nat) by {
                if k == 0 {
                    assert(lone_operand(o));
                    assert(p.token_ptr.pos == o.token_ptr.pos + 2);
                }
            }
        }
        let r = expr(p)?;
        let n = new_binary(Nodekind::CommaNd, node, r, Some(ptr));
        proof {
            lemma_shape_top(n);
            assert forall|k: nat| #[trigger] operand_list(o, k) implies *p == shifted(o, 2 * k + 1int) && p.token_ptr.pos
                == o.token_ptr.pos + 2 * k + 1 by {
                assert(operand_list(mid, (k - 1) as nat));
                assert(*p == shifted(mid, 2 * (k - 1) + 1));
            }
        }
        Ok(n)
    } else {
        proof {
            assert forall|k: nat| #[trigger] operand_list(o, k) implies k == 0 && *p == shifted(o, 1) by {
                if k > 0 {
                    assert(op_at(o.token_ptr, 1, ","@));
                }
            }
        }
        Ok(node)
    }
}

/// assign = logor (assign-op assign)?, with assign-op one of
/// = += -= *= /= %= &= ^= |= <<= >>=
pub fn assign(p: &mut Parser) -> (r: Result<Node, CompileError>)
    requires
        parser_wf(*old(p)),
    ensures
        adv(*old(p), *final(p)),
        r is Ok ==> progressed(*old(p), *final(p)),
        r is Ok ==> past_assign(final(p).token_ptr),
        r matches Ok(n) ==> reads_assign(toks_of(*old(p)), pos_of(*old(p)), pos_of(*final(p)), shape(n)),
        assign_operand(*old(p)) ==> r is Ok && read_one(*old(p), *final(p)) && num_read(*old(p), r->Ok_0),
    decreases rem(*old(p)), 69int,
{
    let node = logor(p)?;
    let ptr = here(p);
    let kind = if consume(&mut p.token_ptr, "=") {
        Nodekind::AssignNd
    } else if consume(&mut p.token_ptr, "+=") {
        Nodekind::AddNd
    } else if consume(&mut p.token_ptr, "-=") {
        Nodekind::SubNd
    } else if consume(&mut p.token_ptr, "*=") {
        Nodekind::MulNd
    } else if consume(&mut p.token_ptr, "/=") {
        Nodekind::DivNd
    } else if consume(&mut p.token_ptr, "%=") {
        Nodekind::ModNd
    } else if consume(&mut p.token_ptr, "&=") {
        Nodekind::BitAndNd
    } else if consume(&mut p.token_ptr, "^=") {
        Nodekind::BitXorNd
    } else if consume(&mut p.token_ptr, "|=") {
        Nodekind::BitOrNd
    } else if consume(&mut p.token_ptr, "<<=") {
        Nodekind::LShiftNd
    } else if consume(&mut p.token_ptr, ">>=") {
        Nodekind::RShiftNd
    } else {
        return Ok(node);
    };
    let r = assign(p)?;
    let ghost (l0, r0) = (node, r);
    let n = assign_op(p, kind, node, r, Some(ptr))?;
    proof {
        lemma_shape_top(n);
        if kind == Nodekind::AssignNd {
            lemma_assign_shape(l0, r0, Some(ptr), n);
        } else {
            assert(reads_logor(toks_of(*old(p)), pos_of(*old(p)), ptr as int, shape(l0)));
            assert(reads_assign(toks_of(*old(p)), ptr + 1, pos_of(*p), shape(r0)));
        }
    }
    Ok(n)
}

/// logor = logand ("||" logand)*
pub fn logor(p: &mut Parser) -> (r: Result<Node, CompileError>)
    requires
        parser_wf(*old(p)),
    ensures
        adv(*old(p), *final(p)),
        r is Ok ==> progressed(*old(p), *final(p)),
        r is Ok ==> past_logor(final(p).token_ptr),
        r matches Ok(n) ==> reads_logor(toks_of(*old(p)), pos_of(*old(p)), pos_of(*final(p)), shape(n)),
        assign_operand(*old(p)) ==> r is Ok && read_one(*old(p), *final(p)) && num_read(*old(p), r->Ok_0),
    decreases rem(*old(p)), 68int,
{
    let mut node = logand(p)?;
    loop
        invariant
            adv(*old(p), *p),
            progressed(*old(p), *p),
            past_logand(p.token_ptr),
            reads_logor(toks_of(*old(p)), pos_of(*old(p)), pos_of(*p), shape(node)),
            assign_operand(*old(p)) ==> read_one(*old(p), *p) && num_read(*old(p), node),
        ensures
            past_logor(p.token_ptr),
        decreases rem(*p),
    {
        let ptr = here(p);
        if consume(&mut p.token_ptr, "||") {
            let r = logand(p)?;
            node = new_binary(Nodekind::LogOrNd, node, r, Some(ptr));
            proof {
                lemma_shape_top(node);
            }
        } else {
            break;
        }
    }
    Ok(node)
}

/// logand = bitor ("&&" bitor)*
pub fn logand(p: &mut Parser) -> (r: Result<Node, CompileError>)
    requires
        parser_wf(*old(p)),
    ensures
        adv(*old(p), *final(p)),
        r is Ok ==> progressed(*old(p), *final(p)),
        r is Ok ==> past_logand(final(p).token_ptr),
        r matches Ok(n) ==> reads_logand(toks_of(*old(p)), pos_of(*old(p)), pos_of(*final(p)), shape(n)),
        assign_operand(*old(p)) ==> r is Ok && read_one(*old(p), *final(p)) && num_read(*old(p), r->Ok_0),
    decreases rem(*old(p)), 67int,
{
    let mut node = bitor(p)?;
    loop
        invariant
            adv(*old(p), *p),
            progressed(*old(p), *p),
            past_bitor(p.token_ptr),
            reads_logand(toks_of(*old(p)), pos_of(*old(p)), pos_of(*p), shape(node)),
            assign_operand(*old(p)) ==> read_one(*old(p), *p) && num_read(*old(p), node),
        ensures
            past_logand(p.token_ptr),
        decreases rem(*p),
    {
        let ptr = here(p);
        if consume(&mut p.token_ptr, "&&") {
            let r = bitor(p)?;
            node = new_binary(Nodekind::LogAndNd, node, r, Some(ptr));
            proof {
                lemma_shape_top(node);
            }
        } else {
            break;
        }
    }
    Ok(node)
}

/// bitor = bitxor ("|" bitxor)*
pub fn bitor(p: &mut Parser) -> (r: Result<Node, CompileError>)
    requires
        parser_wf(*old(p)),
    ensures
        adv(*old(p), *final(p)),
        r is Ok ==> progressed(*old(p), *final(p)),
        r is Ok ==> past_bitor(final(p).token_ptr),
        r matches Ok(n) ==> reads_bitor(toks_of(*old(p)), pos_of(*old(p)), pos_of(*final(p)), shape(n)),
        assign_operand(*old(p)) ==> r is Ok && read_one(*old(p), *final(p)) && num_read(*old(p), r->Ok_0),
    decreases rem(*old(p)), 66int,
{
    let mut node = bitxor(p)?;
    loop
        invariant
            adv(*old(p), *p),
            progressed(*old(p), *p),
            past_bitxor(p.token_ptr),
            reads_bitor(toks_of(*old(p)), pos_of(*old(p)), pos_of(*p), shape(node)),
            assign_operand(*old(p)) ==> read_one(*old(p), *p) && num_read(*old(p), node),
        ensures
            past_bitor(p.token_ptr),
        decreases rem(*p),
    {
        let ptr = here(p);
        if consume(&mut p.token_ptr, "|") {
            let r = bitxor(p)?;
            node = new_binary(Nodekind::BitOrNd, node, r, Some(ptr));
            proof {
                lemma_shape_top(node);
            }
        } else {
            break;
        }
    }
    Ok(node)
}

/// bitxor = bitand ("^" bitand)*
pub fn bitxor(p: &mut Parser) -> (r: Result<Node, CompileError>)
    requires
        parser_wf(*old(p)),
    ensures
        adv(*old(p), *final(p)),
        r is Ok ==> progressed(*old(p), *final(p)),
        r is Ok ==> past_bitxor(final(p).token_ptr),
        r matches Ok(n) ==> reads_bitxor(toks_of(*old(p)), pos_of(*old(p)), pos_of(*final(p)), shape(n)),
        assign_operand(*old(p)) ==> r is Ok && read_one(*old(p), *final(p)) && num_read(*old(p), r->Ok_0),
    decreases rem(*old(p)), 65int,
{
    let mut node = bitand(p)?;
    loop
        invariant
            adv(*old(p), *p),
            progressed(*old(p), *p),
            past_bitand(p.token_ptr),
            reads_bitxor(toks_of(*old(p)), pos_of(*old(p)), pos_of(*p), shape(node)),
            assign_operand(*old(p)) ==> read_one(*old(p), *p) && num_read(*old(p), node),
        ensures
            past_bitxor(p.token_ptr),
        decreases rem(*p),
    {
        let ptr = here(p);
        if consume(&mut p.token_ptr, "^") {
            let r = bitand(p)?;
            node = new_binary(Nodekind::BitXorNd, node, r, Some(ptr));
            proof {
                lemma_shape_top(node);
            }
        } else {
            break;
        }
    }
    Ok(node)
}

/// bitand = equality ("&" equality)*
pub fn bitand(p: &mut Parser) -> (r: Result<Node, CompileError>)
    requires
        parser_wf(*old(p)),
    ensures
        adv(*old(p), *final(p)),
        r is Ok ==> progressed(*old(p), *final(p)),
        r is Ok ==> past_bitand(final(p).token_ptr),
        r matches Ok(n) ==> reads_bitand(toks_of(*old(p)), pos_of(*old(p)), pos_of(*final(p)), shape(n)),
        assign_operand(*old(p)) ==> r is Ok && read_one(*old(p), *final(p)) && num_read(*old(p), r->Ok_0),
    decreases rem(*old(p)), 64int,
{
    let mut node = equality(p)?;
    loop
        invariant
            adv(*old(p), *p),
            progressed(*old(p), *p),
            past_relational(p.token_ptr),
            reads_bitand(toks_of(*old(p)), pos_of(*old(p)), pos_of(*p), shape(node)),
            assign_operand(*old(p)) ==> read_one(*old(p), *p) && num_read(*old(p), node),
        ensures
            past_bitand(p.token_ptr),
        decreases rem(*p),
    {
        let ptr = here(p);
        if consume(&mut p.token_ptr, "&") {
            let r = equality(p)?;
            node = new_binary(Nodekind::BitAndNd, node, r, Some(ptr));
            proof {
                lemma_shape_top(node);
            }
        } else {
            break;
        }
    }
    Ok(node)
}

/// equality = relational ("==" relational | "!=" relational)?
pub fn equality(p: &mut Parser) -> (r: Result<Node, CompileError>)
    requires
        parser_wf(*old(p)),
    ensures
        adv(*old(p), *final(p)),
        r is Ok ==> progressed(*old(p), *final(p)),
        r is Ok ==> past_relational(final(p).token_ptr),
        r matches Ok(n) ==> reads_equality(toks_of(*old(p)), pos_of(*old(p)), pos_of(*final(p)), shape(n)),
        assign_operand(*old(p)) ==> r is Ok && read_one(*old(p), *final(p)) && num_read(*old(p), r->Ok_0),
    decreases rem(*old(p)), 63int,
{
    let node = relational(p)?;
    let ptr = here(p);
    if consume(&mut p.token_ptr, "==") {
        let r = relational(p)?;
        let n = new_binary(Nodekind::EqNd, node, r, Some(ptr));
        proof {
            lemma_shape_top(n);
        }
        Ok(n)
    } else if consume(&mut p.token_ptr, "!=") {
        let r = relational(p)?;
        let n = new_binary(Nodekind::NEqNd, node, r, Some(ptr));
        proof {
            lemma_shape_top(n);
        }
        Ok(n)
    } else {
        Ok(node)
    }
}

/// relational = shift ("<" shift | "<=" shift | ">" shift | ">=" shift)*, with `a > b` read
/// as `b < a` and `a >= b` as `b <= a`
pub fn relational(p: &mut Parser) -> (r: Result<Node, CompileError>)
    requires
        parser_wf(*old(p)),
    ensures
        adv(*old(p), *final(p)),
        r is Ok ==> progressed(*old(p), *final(p)),
        r is Ok ==> past_relational(final(p).token_ptr),
        r matches Ok(n) ==> reads_relational(toks_of(*old(p)), pos_of(*old(p)), pos_of(*final(p)), shape(n)),
        assign_operand(*old(p)) ==> r is Ok && read_one(*old(p), *final(p)) && num_read(*old(p), r->Ok_0),
    decreases rem(*old(p)), 62int,
{
    let mut node = shift(p)?;
    loop
        invariant
            adv(*old(p), *p),
            progressed(*old(p), *p),
            past_shift(p.token_ptr),
            reads_relational(toks_of(*old(p)), pos_of(*old(p)), pos_of(*p), shape(node)),
            assign_operand(*old(p)) ==> read_one(*old(p), *p) && num_read(*old(p), node),
        ensures
            past_relational(p.token_ptr),
        decreases rem(*p),
    {
        let ptr = here(p);
        if consume(&mut p.token_ptr, "<") {
            let r = shift(p)?;
            node = new_binary(Nodekind::LThanNd, node, r, Some(ptr));
            proof {
                lemma_shape_top(node);
            }
        } else if consume(&mut p.token_ptr, "<=") {
            let r = shift(p)?;
            node = new_binary(Nodekind::LEqNd, node, r, Some(ptr));
            proof {
                lemma_shape_top(node);
            }
        } else if consume(&mut p.token_ptr, ">") {
            let r = shift(p)?;
            node = new_binary(Nodekind::LThanNd, r, node, Some(ptr));
            proof {
                lemma_shape_top(node);
            }
        } else if consume(&mut p.token_ptr, ">=") {
            let r = shift(p)?;
            node = new_binary(Nodekind::LEqNd, r, node, Some(ptr));
            proof {
                lemma_shape_top(node);
            }
        } else {
            break;
        }
    }
    Ok(node)
}

/// shift = add ("<<" add | ">>" add)*
pub fn shift(p: &mut Parser) -> (r: Result<Node, CompileError>)
    requires
        parser_wf(*old(p)),
    ensures
        adv(*old(p), *final(p)),
        r is Ok ==> progressed(*old(p), *final(p)),
        r is Ok ==> past_shift(final(p).token_ptr),
        r matches Ok(n) ==> reads_shift(toks_of(*old(p)), pos_of(*old(p)), pos_of(*final(p)), shape(n)),
        assign_operand(*old(p)) ==> r is Ok && read_one(*old(p), *final(p)) && num_read(*old(p), r->Ok_0),
    decreases rem(*old(p)), 61int,
{
    let mut node = self::add(p)?;
    loop
        invariant
            adv(*old(p), *p),
            progressed(*old(p), *p),
            past_add(p.token_ptr),
            reads_shift(toks_of(*old(p)), pos_of(*old(p)), pos_of(*p), shape(node)),
            assign_operand(*old(p)) ==> read_one(*old(p), *p) && num_read(*old(p), node),
        ensures
            past_shift(p.token_ptr),
        decreases rem(*p),
    {
        let ptr = here(p);
        if consume(&mut p.token_ptr, "<<") {
            let r = self::add(p)?;
            node = new_binary(Nodekind::LShiftNd, node, r, Some(ptr));
            proof {
                lemma_shape_top(node);
            }
        } else if consume(&mut p.token_ptr, ">>") {
            let r = self::add(p)?;
            node = new_binary(Nodekind::RShiftNd, node, r, Some(ptr));
            proof {
                lemma_shape_top(node);
            }
        } else {
            break;
        }
    }
    Ok(node)
}

/// add = mul ("+" mul | "-" mul)*
pub fn add(p: &mut Parser) -> (r: Result<Node, CompileError>)
    requires
        parser_wf(*old(p)),
    ensures
        adv(*old(p), *final(p)),
        r is Ok ==> progressed(*old(p), *final(p)),
        r is Ok ==> past_add(final(p).token_ptr),
        r matches Ok(n) ==> reads_add(toks_of(*old(p)), pos_of(*old(p)), pos_of(*final(p)), shape(n)),
        assign_operand(*old(p)) ==> r is Ok && read_one(*old(p), *final(p)) && num_read(*old(p), r->Ok_0),
        forall|k: nat|
            #[trigger] number_sum(old(p).token_ptr, k) ==> (r matches Ok(n) && final(p).token_ptr.pos
                == old(p).token_ptr.pos + 2 * k + 1 && typed_type(n) == Some(spec_new(Type::Int))),
    decreases rem(*old(p)), 60int,
{
    let ghost o = *p;
    proof {
        assert forall|k: nat| #[trigger] number_sum(o.token_ptr, k) implies mul_operand(o) && cur(o.token_ptr).kind
            == Tokenkind::Num by {
            lemma_sum_first(o, k);
        }
    }
    let mut node = self::mul(p)?;
    let ghost mut i: nat = 0;
    proof {
        if node.typ is Some {
            assert(type_result(node) == Some(node.typ));
        }
    }
    loop
        invariant
            o == *old(p),
            adv(*old(p), *p),
            progressed(*old(p), *p),
            past_mul(p.token_ptr),
            reads_add(toks_of(*old(p)), pos_of(*old(p)), pos_of(*p), shape(node)),
            assign_operand(*old(p)) ==> read_one(*old(p), *p) && num_read(*old(p), node),
            forall|k: nat|
                #[trigger] number_sum(o.token_ptr, k) ==> i <= k && p.token_ptr.pos == o.token_ptr.pos + 2 * i + 1
                    && typed_type(node) == Some(spec_new(Type::Int)),
        ensures
            past_add(p.token_ptr),
            forall|k: nat| #[trigger] number_sum(o.token_ptr, k) ==> i == k,
        decreases rem(*p),
    {
        let ptr = here(p);
        let ghost at = *p;
        if consume(&mut p.token_ptr, "+") {
            proof {
                assert forall|k: nat| #[trigger] number_sum(o.token_ptr, k) implies i < k && mul_operand(*p) && cur(
                    p.token_ptr,
                ).kind == Tokenkind::Num by {
                    lemma_sum_next(o, at, *p, i, k);
                }
            }
            let r = self::mul(p)?;
            let ghost (l0, r0) = (node, r);
            node = new_add(p, node, r, ptr)?;
            proof {
                lemma_add_shape(l0, r0, ptr, node);
                if exists|k: nat| #[trigger] number_sum(o.token_ptr, k) {
                    assert(type_result(r0) == Some(r0.typ));
                    lemma_int_arith(l0, r0, ptr, node, false);
                }
                i = i + 1;
            }
        } else if consume(&mut p.token_ptr, "-") {
            proof {
                assert forall|k: nat| #[trigger] number_sum(o.token_ptr, k) implies i < k && mul_operand(*p) && cur(
                    p.token_ptr,
                ).kind == Tokenkind::Num by {
                    lemma_sum_next(o, at, *p, i, k);
                }
            }
            let r = self::mul(p)?;
            let ghost (l0, r0) = (node, r);
            node = new_sub(p, node, r, ptr)?;
            proof {
                lemma_sub_shape(l0, r0, ptr, node);
                if exists|k: nat| #[trigger] number_sum(o.token_ptr, k) {
                    assert(type_result(r0) == Some(r0.typ));
                    lemma_int_arith(l0, r0, ptr, node, true);
                }
                i = i + 1;
            }
        } else {
            proof {
                assert forall|k: nat| #[trigger] number_sum(o.token_ptr, k) implies i == k by {
                    if i < k {
                        assert(o.token_ptr.tokens@[o.token_ptr.pos + 2 * i].kind == Tokenkind::Num);
                    }
                }
            }
            break;
        }
    }
    Ok(node)
}

/// The sum or difference of two integers, as `new_add` and `new_sub` make it, is an integer.
proof fn lemma_int_arith(l: Node, r: Node, token: usize, n: Node, is_sub: bool)
    requires
        typed_type(l) == Some(spec_new(Type::Int)),
        typed_type(r) == Some(spec_new(Type::Int)),
        is_sub ==> sub_shape(l, r, token, n),
        !is_sub ==> add_shape(l, r, token, n),
    ensures
        typed_type(n) == Some(spec_new(Type::Int)),
{
    let lf = *n.left.unwrap();
    let rf = *n.right.unwrap();
    assert(typed_as(l, lf));
    assert(typed_as(r, rf));
    assert(type_result(lf) == Some(Some(spec_new(Type::Int))));
    assert(type_result(rf) == Some(Some(spec_new(Type::Int))));
    assert(child_type(n.left) == Some(spec_new(Type::Int)));
    assert(child_type(n.right) == Some(spec_new(Type::Int)));
    assert(spec_common_type(spec_new(Type::Int), spec_new(Type::Int)) == spec_new(Type::Int));
}

/// mul = unary ("*" unary | "/" unary | "%" unary)*
pub fn mul(p: &mut Parser) -> (r: Result<Node, CompileError>)
    requires
        parser_wf(*old(p)),
    ensures
        adv(*old(p), *final(p)),
        r is Ok ==> progressed(*old(p), *final(p)),
        r is Ok ==> past_mul(final(p).token_ptr),
        r matches Ok(n) ==> reads_mul(toks_of(*old(p)), pos_of(*old(p)), pos_of(*final(p)), shape(n)),
        mul_operand(*old(p)) ==> r is Ok && read_one(*old(p), *final(p)) && num_read(*old(p), r->Ok_0),
    decreases rem(*old(p)), 59int,
{
    let mut node = unary(p)?;
    loop
        invariant
            adv(*old(p), *p),
            progressed(*old(p), *p),
            reads_mul(toks_of(*old(p)), pos_of(*old(p)), pos_of(*p), shape(node)),
            mul_operand(*old(p)) ==> read_one(*old(p), *p) && num_read(*old(p), node),
        ensures
            past_mul(p.token_ptr),
        decreases rem(*p),
    {
        let ptr = here(p);
        if consume(&mut p.token_ptr, "*") {
            let r = unary(p)?;
            node = new_binary(Nodekind::MulNd, node, r, Some(ptr));
            proof {
                lemma_shape_top(node);
            }
        } else if consume(&mut p.token_ptr, "/") {
            let r = unary(p)?;
            node = new_binary(Nodekind::DivNd, node, r, Some(ptr));
            proof {
                lemma_shape_top(node);
            }
        } else if consume(&mut p.token_ptr, "%") {
            let r = unary(p)?;
            node = new_binary(Nodekind::ModNd, node, r, Some(ptr));
            proof {
                lemma_shape_top(node);
            }
        } else {
            break;
        }
    }
    Ok(node)
}

/// The type of `node` once typed.
fn typed(p: &Parser, node: Node) -> (r: Result<TypeCell, CompileError>)
    ensures
        node.typ is Some ==> r == Ok::<TypeCell, CompileError>(node.typ.unwrap()),
{
    let mut node = node;
    confirm_type(&mut node, &p.token_ptr.tokens)?;
    match &node.typ {
        Some(t) => Ok(t.copy()),
        None => Err(untyped(&node, &p.token_ptr.tokens)),
    }
}

/// Whether the token `k` places after the current one is a type keyword.
pub open spec fn type_kw_at(ts: TokenStream, k: int) -> bool {
    ts.tokens@[ts.pos + k].kind == Tokenkind::Reserved && spec_type_of(text_at(ts, k)) is Some
}

/// Whether `n` is an operation of kind `k` on one operand, read at the token `at`.
pub open spec fn unary_shape(n: Node, k: Nodekind, at: usize) -> bool {
    &&& n.kind == k
    &&& n.token == Some(at)
    &&& n.typ is None
    &&& n.left is Some
    &&& n.right is None
}

/// Whether `n` is `0 + x` or `0 - x` (kind `k`), read at the token `at`.
pub open spec fn signed_shape(n: Node, k: Nodekind, at: usize) -> bool {
    &&& n.kind == k
    &&& n.token == Some(at)
    &&& n.typ is None
    &&& n.left matches Some(z) && z.kind == Nodekind::NumNd && z.val == Some(0i32)
    &&& n.right is Some
}

/// unary = tailed | "sizeof" ("(" (type | expr) ")" | unary) | ("~" | "!" | "*" | "&") unary
///       | ("+" | "-") primary | ("++" | "--") unary
#[verifier::rlimit(80)]
pub fn unary(p: &mut Parser) -> (r: Result<Node, CompileError>)
    requires
        parser_wf(*old(p)),
    ensures
        adv(*old(p), *final(p)),
        r is Ok ==> progressed(*old(p), *final(p)),
        spec_is(old(p).token_ptr, "sizeof"@) ==> (r matches Ok(n) ==> n.kind == Nodekind::NumNd && n.token == Some(
            old(p).token_ptr.pos,
        ) && n.typ == Some(spec_new(Type::Int))),
        spec_is(old(p).token_ptr, "sizeof"@) && type_kw_at(old(p).token_ptr, 1) ==> r is Err,
        spec_is(old(p).token_ptr, "sizeof"@) && op_at(old(p).token_ptr, 1, "("@) && type_kw_at(old(p).token_ptr, 2)
            && op_at(old(p).token_ptr, 3, ")"@) ==> (r matches Ok(n) && n.val == Some(
            type_bytes(spec_type_of(text_at(old(p).token_ptr, 2)).unwrap()) as i32,
        ) && final(p).token_ptr.pos == old(p).token_ptr.pos + 4),
        spec_is(old(p).token_ptr, "sizeof"@) && cur(next_of(old(p).token_ptr)).kind == Tokenkind::Ident
            && assign_operand(shifted(*old(p), 1)) && has_bytes(var_lookup(*old(p), text_at(old(p).token_ptr, 1))->Some_0.0)
            ==> (r matches Ok(n) && n.val == Some(spec_bytes(var_lookup(*old(p), text_at(old(p).token_ptr, 1))->Some_0.0) as i32)
            && final(p).token_ptr.pos == old(p).token_ptr.pos + 2),
        spec_is(old(p).token_ptr, "~"@) ==> (r matches Ok(n) ==> unary_shape(n, Nodekind::BitNotNd, old(p).token_ptr.pos)),
        spec_is(old(p).token_ptr, "!"@) ==> (r matches Ok(n) ==> unary_shape(n, Nodekind::LogNotNd, old(p).token_ptr.pos)),
        spec_is(old(p).token_ptr, "*"@) ==> (r matches Ok(n) ==> unary_shape(n, Nodekind::DerefNd, old(p).token_ptr.pos)),
        spec_is(old(p).token_ptr, "&"@) ==> (r matches Ok(n) ==> unary_shape(n, Nodekind::AddrNd, old(p).token_ptr.pos)),
        spec_is(old(p).token_ptr, "+"@) ==> (r matches Ok(n) ==> signed_shape(n, Nodekind::AddNd, old(p).token_ptr.pos)),
        spec_is(old(p).token_ptr, "-"@) ==> (r matches Ok(n) ==> signed_shape(n, Nodekind::SubNd, old(p).token_ptr.pos)),
        spec_is(old(p).token_ptr, "++"@) || spec_is(old(p).token_ptr, "--"@) ==> (r matches Ok(n) ==> n.kind
            == Nodekind::CommaNd && n.token == Some(old(p).token_ptr.pos)),
        r matches Ok(n) ==> reads_unary(toks_of(*old(p)), pos_of(*old(p)), pos_of(*final(p)), shape(n)),
        mul_operand(*old(p)) ==> r is Ok && read_one(*old(p), *final(p)) && num_read(*old(p), r->Ok_0),
    decreases rem(*old(p)), 58int,
{
    proof {
        reveal_strlit("sizeof");
        reveal_strlit("~");
        reveal_strlit("!");
        reveal_strlit("*");
        reveal_strlit("&");
        reveal_strlit("+");
        reveal_strlit("-");
        reveal_strlit("++");
        reveal_strlit("--");
        assert("sizeof"@.len() == 6 && "~"@.len() == 1 && "++"@.len() == 2 && "--"@.len() == 2);
        assert("~"@[0] == '~' && "!"@[0] == '!' && "*"@[0] == '*' && "&"@[0] == '&' && "+"@[0] == '+'
            && "-"@[0] == '-' && "++"@[0] == '+' && "--"@[0] == '-');
        assert("~"@ != "!"@ && "~"@ != "*"@ && "~"@ != "&"@ && "~"@ != "+"@ && "~"@ != "-"@);
        assert("!"@ != "*"@ && "!"@ != "&"@ && "!"@ != "+"@ && "!"@ != "-"@);
        assert("*"@ != "&"@ && "*"@ != "+"@ && "*"@ != "-"@ && "&"@ != "+"@ && "&"@ != "-"@ && "+"@ != "-"@);
        assert("++"@ != "--"@);
        reveal_strlit("(");
        reveal_strlit("int");
        reveal_strlit("char");
        assert("("@[0] == '(' && "int"@[0] == 'i' && "char"@[0] == 'c');
        assert(spec_type_of("("@) is None);
    }
    let ghost o = *p;
    let ptr = here(p);
    if consume(&mut p.token_ptr, "sizeof") {
        proof {
            assert(*p == shifted(o, 1));
        }
        let ptr_ = here(p);
        if let Some(typ) = consume_type(&mut p.token_ptr) {
            let ts = typ.type_string();
            return Err(error_at_token3(p, ptr_, "型名を使用した sizeof 演算子の使用では、 \"(\" と \")\" で囲う必要があります。 -> \"(", &ts, ")\""));
        }
        let ghost mut w = zero();
        let typ = if consume(&mut p.token_ptr, "(") {
            let t = if let Some(t) = consume_type(&mut p.token_ptr) {
                t
            } else {
                let e = expr(p)?;
                proof {
                    w = shape(e);
                }
                typed(p, e)?
            };
            expect(&mut p.token_ptr, ")")?;
            t
        } else {
            let u = unary(p)?;
            proof {
                w = shape(u);
            }
            typed(p, u)?
        };
        proof {
            let toks = toks_of(*old(p));
            let lo = pos_of(*old(p));
            let hi = pos_of(*p);
            if op_at(old(p).token_ptr, 1, "("@) {
                if !type_token(toks, lo + 2) {
                    assert(reads_expr(toks, lo + 2, hi - 1, w));
                    assert(any_shape(w));
                    assert(is_expr(toks, lo + 2, hi - 1));
                }
            } else {
                assert(reads_unary(toks, lo + 1, hi, w));
                assert(any_shape(w));
                assert(is_unary(toks, lo + 1, hi));
            }
        }
        let bytes = match typ.try_bytes() {
            Some(b) => b,
            None => {
                return Err(error_at_token(p, ptr, "型の大きさが扱えません。"));
            },
        };
        let n = new_num(bytes as i32, Some(ptr));
        proof {
            lemma_shape_top(n);
        }
        Ok(n)
    } else if consume(&mut p.token_ptr, "~") {
        let u = unary(p)?;
        let n = new_unary(Nodekind::BitNotNd, u, Some(ptr));
        proof {
            lemma_shape_top(n);
        }
        Ok(n)
    } else if consume(&mut p.token_ptr, "!") {
        let u = unary(p)?;
        let n = new_unary(Nodekind::LogNotNd, u, Some(ptr));
        proof {
            lemma_shape_top(n);
        }
        Ok(n)
    } else if consume(&mut p.token_ptr, "*") {
        let mut u = unary(p)?;
        let ghost u0 = u;
        confirm_type(&mut u, &p.token_ptr.tokens)?;
        let n = new_unary(Nodekind::DerefNd, u, Some(ptr));
        proof {
            lemma_typing_keeps_shape(u0, u);
            lemma_shape_top(n);
        }
        Ok(n)
    } else if consume(&mut p.token_ptr, "&") {
        let mut u = unary(p)?;
        let ghost u0 = u;
        confirm_type(&mut u, &p.token_ptr.tokens)?;
        let n = new_unary(Nodekind::AddrNd, u, Some(ptr));
        proof {
            lemma_typing_keeps_shape(u0, u);
            lemma_shape_top(n);
        }
        Ok(n)
    } else if consume(&mut p.token_ptr, "+") {
        let q = primary(p)?;
        let z = new_num(0, None);
        let n = new_binary(Nodekind::AddNd, z, q, Some(ptr));
        proof {
            lemma_shape_top(z);
            lemma_shape_top(n);
        }
        Ok(n)
    } else if consume(&mut p.token_ptr, "-") {
        let q = primary(p)?;
        let z = new_num(0, None);
        let n = new_binary(Nodekind::SubNd, z, q, Some(ptr));
        proof {
            lemma_shape_top(z);
            lemma_shape_top(n);
        }
        Ok(n)
    } else if consume(&mut p.token_ptr, "++") {
        let u = unary(p)?;
        let ghost w = shape(u);
        let n = assign_op(p, Nodekind::AddNd, u, new_num(1, None), Some(ptr))?;
        proof {
            lemma_shape_top(n);
            assert(reads_unary(toks_of(*old(p)), pos_of(*old(p)) + 1, pos_of(*p), w));
        }
        Ok(n)
    } else if consume(&mut p.token_ptr, "--") {
        let u = unary(p)?;
        let ghost w = shape(u);
        let n = assign_op(p, Nodekind::SubNd, u, new_num(1, None), Some(ptr))?;
        proof {
            lemma_shape_top(n);
            assert(reads_unary(toks_of(*old(p)), pos_of(*old(p)) + 1, pos_of(*p), w));
        }
        Ok(n)
    } else {
        tailed(p)
    }
}

/// tailed = primary ("++" | "--")?
pub fn tailed(p: &mut Parser) -> (r: Result<Node, CompileError>)
    requires
        parser_wf(*old(p)),
    ensures
        adv(*old(p), *final(p)),
        r is Ok ==> progressed(*old(p), *final(p)),
        r matches Ok(n) ==> (just_read(final(p).token_ptr, "++"@) ==> n.kind == Nodekind::SubNd && n.token == Some(
            (final(p).token_ptr.pos - 1) as usize,
        )),
        r matches Ok(n) ==> (just_read(final(p).token_ptr, "--"@) ==> n.kind == Nodekind::AddNd && n.token == Some(
            (final(p).token_ptr.pos - 1) as usize,
        )),
        r matches Ok(n) ==> reads_tailed(toks_of(*old(p)), pos_of(*old(p)), pos_of(*final(p)), shape(n)),
        mul_operand(*old(p)) ==> r is Ok && read_one(*old(p), *final(p)) && num_read(*old(p), r->Ok_0),
    decreases rem(*old(p)), 57int,
{
    proof {
        reveal_strlit("++");
        reveal_strlit("--");
        assert("++"@[0] != "--"@[0]);
    }
    let node = primary(p)?;
    let ghost w = shape(node);
    let ptr = here(p);
    if consume(&mut p.token_ptr, "++") {
        let n = inc_dec(p, node, true, false, ptr)?;
        proof {
            lemma_shape_top(n);
            assert(reads_primary(toks_of(*old(p)), pos_of(*old(p)), pos_of(*p) - 1, w));
        }
        Ok(n)
    } else if consume(&mut p.token_ptr, "--") {
        let n = inc_dec(p, node, false, false, ptr)?;
        proof {
            lemma_shape_top(n);
            assert(reads_primary(toks_of(*old(p)), pos_of(*old(p)), pos_of(*p) - 1, w));
        }
        Ok(n)
    } else {
        Ok(node)
    }
}

/// Whether the token just read is the reserved token `op`.
pub open spec fn just_read(ts: TokenStream, op: Seq<char>) -> bool {
    tok_is(ts.tokens@, ts.pos - 1, op)
}

/// params = (assign ("," assign)*)? ")"
pub fn params(p: &mut Parser) -> (r: Result<Vec<Node>, CompileError>)
    requires
        parser_wf(*old(p)),
    ensures
        adv(*old(p), *final(p)),
        r is Ok ==> progressed(*old(p), *final(p)),
        r matches Ok(args) ==> all_typed(args@),
        r is Ok ==> just_read(final(p).token_ptr, ")"@),
        r is Ok ==> reads_params(toks_of(*old(p)), pos_of(*old(p)), pos_of(*final(p))),
        spec_is(old(p).token_ptr, ")"@) ==> (r matches Ok(args) && args@.len() == 0 && read_one(*old(p), *final(p))),
    decreases rem(*old(p)), 71int,
{
    let mut args: Vec<Node> = Vec::new();
    if !consume(&mut p.token_ptr, ")") {
        let mut arg = assign(p)?;
        let ghost a0 = arg;
        proof {
            assert(reads_assign(toks_of(*old(p)), pos_of(*old(p)), pos_of(*p), shape(a0)));
            assert(any_shape(shape(a0)));
            assert(is_assign(toks_of(*old(p)), pos_of(*old(p)), pos_of(*p)));
        }
        confirm_type(&mut arg, &p.token_ptr.tokens)?;
        proof {
            lemma_typed_result(a0, arg);
        }
        args.push(arg);
        loop
            invariant_except_break
                reads_args(toks_of(*old(p)), pos_of(*old(p)), pos_of(*p)),
            invariant
                !spec_is(old(p).token_ptr, ")"@),
                adv(*old(p), *p),
                progressed(*old(p), *p),
                all_typed(args@),
            ensures
                just_read(p.token_ptr, ")"@),
                reads_args(toks_of(*old(p)), pos_of(*old(p)), pos_of(*p) - 1),
            decreases rem(*p),
        {
            if !consume(&mut p.token_ptr, ",") {
                expect(&mut p.token_ptr, ")")?;
                break;
            }
            let ghost k = pos_of(*p);
            assert(reads_args(toks_of(*old(p)), pos_of(*old(p)), k - 1));
            let mut arg = assign(p)?;
            let ghost a0 = arg;
            proof {
                assert(reads_assign(toks_of(*old(p)), k, pos_of(*p), shape(a0)));
                assert(any_shape(shape(a0)));
                assert(is_assign(toks_of(*old(p)), k, pos_of(*p)));
                assert(any_pos(k));
            }
            confirm_type(&mut arg, &p.token_ptr.tokens)?;
            proof {
                lemma_typed_result(a0, arg);
            }
            let ghost before = args@;
            args.push(arg);
            proof {
                assert forall|i: int| 0 <= i < args@.len() implies type_result(#[trigger] args@[i]) == Some(args@[i].typ) by {
                    if i < before.len() {
                        assert(args@[i] == before[i]);
                    }
                }
            }
        }
    }
    Ok(args)
}

/// The number of UTF-8 bytes of `s`, or `None` where that number does not fit in a `usize`.
fn utf8_len(s: &Vec<char>) -> (r: Option<usize>)
    ensures
        r matches Some(n) ==> n == utf8_seq(s@).len(),
        r is None ==> utf8_seq(s@).len() > usize::MAX,
{
    let mut n: usize = 0;
    let mut i: usize = 0;
    while i < s.len()
        invariant
            i <= s@.len(),
            n == utf8_seq(s@.subrange(0, i as int)).len(),
        decreases s.len() - i,
    {
        let c = s[i];
        let k = utf8_width(c);
        proof {
            let pre = s@.subrange(0, i as int + 1);
            assert(pre.drop_last() =~= s@.subrange(0, i as int));
            assert(pre.last() == c);
        }
        if n > usize::MAX - k {
            proof {
                lemma_utf8_seq_prefix_len(s@, i as int + 1);
            }
            return None;
        }
        n = n + k;
        i = i + 1;
    }
    assert(s@.subrange(0, i as int) =~= s@);
    Some(n)
}

/// The UTF-8 encoding of a prefix of `s` is no longer than that of `s`.
proof fn lemma_utf8_seq_prefix_len(s: Seq<char>, j: int)
    requires
        0 <= j <= s.len(),
    ensures
        utf8_seq(s.subrange(0, j)).len() <= utf8_seq(s).len(),
    decreases s.len() - j,
{
    if j < s.len() {
        lemma_utf8_seq_prefix_len(s, j + 1);
        let pre = s.subrange(0, j + 1);
        assert(pre.drop_last() =~= s.subrange(0, j));
    } else {
        assert(s.subrange(0, j) =~= s);
    }
}

/// Whether the token `k` places after the current one is the reserved token `op`.
pub open spec fn op_at(ts: TokenStream, k: int, op: Seq<char>) -> bool {
    ts.tokens@[ts.pos + k].kind == Tokenkind::Reserved && ts.tokens@[ts.pos + k]@.body == Some(op)
}

/// The number of parameters that the function type `f` declares.
pub open spec fn arg_count(f: TypeCell) -> nat {
    match f.arg_typs {
        Some(l) => list_seq(l).len(),
        None => 0,
    }
}

/// Whether the parameter types of the function type `f` are the types of `args`, in order.
pub open spec fn args_typed_as(args: Seq<Node>, f: TypeCell) -> bool {
    &&& f.arg_typs is Some
    &&& list_seq(f.arg_typs.unwrap()).len() == args.len()
    &&& forall|i: int| 0 <= i < args.len() ==> Some(list_seq(f.arg_typs.unwrap())[i]) == (#[trigger] args[i]).typ
}

/// The global named `name` in `globals`, if one is declared.
pub open spec fn global_lookup(globals: Seq<GlobalDecl>, name: Seq<char>) -> Option<GlobalDecl> {
    if exists|i: int| 0 <= i < globals.len() && (#[trigger] globals[i]).name@ == name {
        Some(globals[choose|i: int| 0 <= i < globals.len() && (#[trigger] globals[i]).name@ == name])
    } else {
        None
    }
}

/// The variable named `name` as the parser knows it: its type and whether it is local (a
/// local hides a global of the same name); none when no variable has that name.
pub open spec fn var_lookup(p: Parser, name: Seq<char>) -> Option<(TypeCell, bool)> {
    if exists|i: int| 0 <= i < p.locals@.len() && (#[trigger] p.locals@[i]).name@ == name {
        let i = choose|i: int| 0 <= i < p.locals@.len() && (#[trigger] p.locals@[i]).name@ == name;
        Some((p.locals@[i].typ, true))
    } else if exists|i: int| 0 <= i < p.globals@.len() && (#[trigger] p.globals@[i]).name@ == name {
        let i = choose|i: int| 0 <= i < p.globals@.len() && (#[trigger] p.globals@[i]).name@ == name;
        match p.globals@[i].typ {
            Some(t) => Some((t, false)),
            None => None,
        }
    } else {
        None
    }
}

/// primary = "(" expr ")" | ident ("(" params | ("[" expr "]")*)? | string-literal | num
#[verifier::rlimit(60)]
pub fn primary(p: &mut Parser) -> (r: Result<Node, CompileError>)
    requires
        parser_wf(*old(p)),
    ensures
        adv(*old(p), *final(p)),
        r is Ok ==> progressed(*old(p), *final(p)),
        cur(old(p).token_ptr).kind == Tokenkind::Num ==> r is Ok && r->Ok_0.kind == Nodekind::NumNd
            && r->Ok_0.val == cur(old(p).token_ptr).val && r->Ok_0.typ == Some(spec_new(Type::Int))
            && final(p).token_ptr.pos == old(p).token_ptr.pos + 1,
        cur(old(p).token_ptr).kind == Tokenkind::String ==> (r is Ok <==> utf8_seq(cur_body(old(p).token_ptr)).len()
            < usize::MAX),
        cur(old(p).token_ptr).kind == Tokenkind::String ==> (r matches Ok(n) ==> {
            &&& lvar_shape(
                n,
                Some(old(p).token_ptr.pos),
                Some(spec_array_of(spec_new(Type::Char), (utf8_seq(cur_body(old(p).token_ptr)).len() + 1) as usize)),
            )
            &&& !n.is_local
            &&& n.name is Some
            &&& exists|i: int|
                0 <= i < final(p).literals@.len() && (#[trigger] final(p).literals@[i]).body@ == cur_body(old(p).token_ptr)
                    && final(p).literals@[i].name@ == n.name.unwrap()@
        }),
        cur(old(p).token_ptr).kind == Tokenkind::Ident && !op_at(old(p).token_ptr, 1, "("@) && var_lookup(
            *old(p),
            cur_body(old(p).token_ptr),
        ) is None ==> r is Err,
        cur(old(p).token_ptr).kind == Tokenkind::Ident && !op_at(old(p).token_ptr, 1, "("@) && !op_at(
            old(p).token_ptr,
            1,
            "["@,
        ) ==> (r is Ok <==> var_lookup(*old(p), cur_body(old(p).token_ptr)) is Some) && (r matches Ok(n) ==> {
            let (t, local) = var_lookup(*old(p), cur_body(old(p).token_ptr)).unwrap();
            &&& lvar_shape(n, Some(old(p).token_ptr.pos), Some(t))
            &&& n.is_local == local
            &&& final(p).token_ptr.pos == old(p).token_ptr.pos + 1
            &&& local ==> exists|i: int|
                0 <= i < old(p).locals@.len() && (#[trigger] old(p).locals@[i]).name@ == cur_body(old(p).token_ptr)
                    && n.offset == Some(old(p).locals@[i].offset)
            &&& !local ==> (n.name matches Some(nm) && nm@ == cur_body(old(p).token_ptr))
        }),
        cur(old(p).token_ptr).kind == Tokenkind::Ident && !op_at(old(p).token_ptr, 1, "("@) && op_at(old(p).token_ptr, 1, "["@)
            ==> (r matches Ok(n) ==> n.kind == Nodekind::DerefNd && n.token == Some(old(p).token_ptr.pos) && (n.left matches Some(
            s,
        ) && s.kind == Nodekind::AddNd)),
        cur(old(p).token_ptr).kind == Tokenkind::Ident && op_at(old(p).token_ptr, 1, "("@) ==> (r matches Ok(n) ==> (n.kind
            == Nodekind::FunCallNd && n.token == Some(old(p).token_ptr.pos) && (n.name matches Some(nm) && nm@ == cur_body(
            old(p).token_ptr,
        )))),
        cur(old(p).token_ptr).kind == Tokenkind::Ident && op_at(old(p).token_ptr, 1, "("@) ==> (r matches Ok(n) ==> match global_lookup(
            final(p).globals@,
            cur_body(old(p).token_ptr),
        ) {
            Some(g) => g.func_typ is Some && n.func_typ == g.func_typ && (arg_count(g.func_typ.unwrap()) <= usize::MAX
                ==> n.args@.len() == arg_count(g.func_typ.unwrap())),
            None => n.func_typ matches Some(f) && f.typ == Type::Func && f.ret_typ == Some(Box::new(spec_new(Type::Int)))
                && args_typed_as(n.args@, f),
        }),
        cur(old(p).token_ptr).kind == Tokenkind::Ident && op_at(old(p).token_ptr, 1, "("@) ==> (r matches Ok(n)
            ==> all_typed(n.args@)),
        cur(old(p).token_ptr).kind == Tokenkind::Ident && op_at(old(p).token_ptr, 1, "("@) && (global_lookup(
            final(p).globals@,
            cur_body(old(p).token_ptr),
        ) matches Some(g) && g.func_typ is None) ==> r is Err,
        !spec_is(old(p).token_ptr, "("@) && cur(old(p).token_ptr).kind != Tokenkind::Ident
            && cur(old(p).token_ptr).kind != Tokenkind::String && cur(old(p).token_ptr).kind
            != Tokenkind::Num ==> r is Err,
        r is Ok ==> !just_read(final(p).token_ptr, "++"@) && !just_read(final(p).token_ptr, "--"@),
        r matches Ok(n) ==> reads_primary(toks_of(*old(p)), pos_of(*old(p)), pos_of(*final(p)), shape(n)),
        simple_operand(*old(p)) ==> r is Ok && read_one(*old(p), *final(p)),
    decreases rem(*old(p)), 56int,
{
    proof {
        reveal_strlit("++");
        reveal_strlit("--");
        reveal_strlit(")");
        reveal_strlit("]");
        assert("++"@.len() == 2 && "--"@.len() == 2 && ")"@.len() == 1 && "]"@.len() == 1);
    }
    let ptr = here(p);
    if consume(&mut p.token_ptr, "(") {
        let node = expr(p)?;
        expect(&mut p.token_ptr, ")")?;
        Ok(node)
    } else if let Some(name) = consume_ident(&mut p.token_ptr) {
        if consume(&mut p.token_ptr, "(") {
            let args = params(p)?;
            let ghost text = name@;
            match find_global(p, &name) {
                Some(gi) => {
                    proof {
                        reveal(globals_wf);
                        let i = choose|i: int| 0 <= i < p.globals@.len() && (#[trigger] p.globals@[i]).name@ == text;
                        assert(i == gi);
                    }
                    let func_typ = match &p.globals[gi].func_typ {
                        Some(f) => f.copy(),
                        None => {
                            let ts = match &p.globals[gi].typ {
                                Some(t) => t.type_string(),
                                None => Vec::new(),
                            };
                            return Err(error_at_token3(p, ptr, "型\"", &ts, "\"は関数として扱えません。"));
                        },
                    };
                    if func_typ.typ != Type::Func {
                        return Err(untyped(&Node::blank(Nodekind::FunCallNd), &p.token_ptr.tokens));
                    }
                    let argc = match &func_typ.arg_typs {
                        Some(l) => l.count(),
                        None => 0,
                    };
                    if args.len() != argc {
                        let mut mid = copy_chars(&name);
                        push_str(&mut mid, "\" の引数は");
                        push_u64(&mut mid, argc as u64);
                        push_str(&mut mid, "個で宣言されていますが、");
                        push_u64(&mut mid, args.len() as u64);
                        return Err(error_at_token3(p, ptr, "\"", &mid, "個が渡されました。"));
                    }
                    let n = new_func(name, func_typ, args, Some(ptr));
                    proof {
                        lemma_shape_top(n);
                    }
                    Ok(n)
                },
                None => {
                    let mut arg_typs = TypeList::Nil;
                    let mut i: usize = 0;
                    while i < args.len()
                        invariant
                            adv(*old(p), *p),
                            progressed(*old(p), *p),
                            cur(old(p).token_ptr).kind == Tokenkind::Ident,
                            op_at(old(p).token_ptr, 1, "("@),
                            i <= args@.len(),
                            list_seq(arg_typs).len() == i,
                            forall|k: int| 0 <= k < i ==> Some(list_seq(arg_typs)[k]) == (#[trigger] args@[k]).typ,
                        decreases args.len() - i,
                    {
                        let t = match &args[i].typ {
                            Some(t) => t.copy(),
                            None => {
                                return Err(untyped(&args[i], &p.token_ptr.tokens));
                            },
                        };
                        arg_typs = arg_typs.push(t);
                        i = i + 1;
                    }
                    let func_typ = TypeCell::make_func(TypeCell::new(Type::Int), arg_typs);
                    let n = new_func(name, func_typ, args, Some(ptr));
                    proof {
                        lemma_shape_top(n);
                    }
                                Ok(n)
                },
            }
        } else {
            let ghost text = name@;
            let (typ, is_local) = match find_local(p, &name) {
                Some(li) => {
                    proof {
                        reveal(locals_wf);
                        let i = choose|i: int| 0 <= i < p.locals@.len() && (#[trigger] p.locals@[i]).name@ == text;
                        assert(i == li);
                    }
                    (p.locals[li].typ.copy(), true)
                },
                None => match find_global(p, &name) {
                    Some(gi) => {
                        proof {
                            reveal(globals_wf);
                            let i = choose|i: int| 0 <= i < p.globals@.len() && (#[trigger] p.globals@[i]).name@ == text;
                            assert(i == gi);
                        }
                        match &p.globals[gi].typ {
                            Some(t) => (t.copy(), false),
                            None => {
                                return Err(error_at_token(p, ptr, "関数を変数として扱うことはできません。"));
                            },
                        }
                    },
                    None => {
                        return Err(error_at_token(p, ptr, "定義されていない変数です。"));
                    },
                },
            };
            let ghost p1 = *p;
            let mut node = make_lvar(p, name, Some(ptr), Some(typ), is_local)?;
            let ghost node0 = node;
            proof {
                if is_local {
                    reveal(locals_wf);
                }
                lemma_shape_top(node);
            }
            let ghost p2 = *p;
            loop
                invariant
                    !op_at(old(p).token_ptr, 1, "["@) ==> *p == p2,
                    adv(*old(p), *p),
                    progressed(*old(p), *p),
                    cur(old(p).token_ptr).kind == Tokenkind::Ident,
                    p1.token_ptr.pos == old(p).token_ptr.pos + 1,
                    p1.token_ptr.tokens == old(p).token_ptr.tokens,
                    ptr == old(p).token_ptr.pos,
                    just_read(p.token_ptr, "]"@) || p.token_ptr.pos == old(p).token_ptr.pos + 1,
                    !op_at(old(p).token_ptr, 1, "["@) ==> node == node0 && p.token_ptr.pos == old(p).token_ptr.pos + 1,
                    (node == node0 && p.token_ptr.pos == old(p).token_ptr.pos + 1) || (node.kind == Nodekind::DerefNd
                        && node.token == Some(old(p).token_ptr.pos) && (node.left matches Some(s) && s.kind
                        == Nodekind::AddNd)),
                    node == node0 || un_at(shape(node), Nodekind::DerefNd, pos_of(*old(p))),
                    (node == node0 && p.token_ptr.pos == old(p).token_ptr.pos + 1) || reads_subscripts(
                        toks_of(*old(p)),
                        pos_of(*old(p)),
                        pos_of(*p),
                        shape(node),
                    ),
                    shape(node0) == (Shape::Leaf { kind: Nodekind::LvarNd, token: Some(ptr), val: None }),
                ensures
                    !spec_is(p.token_ptr, "["@),
                    just_read(p.token_ptr, "]"@) || p.token_ptr.pos == old(p).token_ptr.pos + 1,
                    !op_at(old(p).token_ptr, 1, "["@) ==> node == node0 && p.token_ptr.pos == old(p).token_ptr.pos + 1,
                    (node == node0 && p.token_ptr.pos == old(p).token_ptr.pos + 1) || (node.kind == Nodekind::DerefNd
                        && node.token == Some(old(p).token_ptr.pos) && (node.left matches Some(s) && s.kind
                        == Nodekind::AddNd)),
                    node == node0 || un_at(shape(node), Nodekind::DerefNd, pos_of(*old(p))),
                    (node == node0 && p.token_ptr.pos == old(p).token_ptr.pos + 1) || reads_subscripts(
                        toks_of(*old(p)),
                        pos_of(*old(p)),
                        pos_of(*p),
                        shape(node),
                    ),
                decreases rem(*p),
            {
                if !consume(&mut p.token_ptr, "[") {
                    break;
                }
                let index_ptr = here(p);
                let index = expr(p)?;
                let ghost (prev, idx) = (node, index);
                let sum = new_add(p, node, index, index_ptr)?;
                assert(sum.kind == Nodekind::AddNd);
                node = new_unary(Nodekind::DerefNd, sum, Some(ptr));
                proof {
                    lemma_add_shape(prev, idx, index_ptr, sum);
                    lemma_shape_top(sum);
                    lemma_shape_top(node);
                    let toks = toks_of(*old(p));
                    let lo = pos_of(*old(p));
                    assert(reads_subscripted(toks, lo, index_ptr - 1, shape(prev)));
                }
                expect(&mut p.token_ptr, "]")?;
            }
            Ok(node)
        }
    } else if let Some(literal) = consume_literal(&mut p.token_ptr) {
        let len = match utf8_len(&literal) {
            Some(n) => n,
            None => usize::MAX,
        };
        if len == usize::MAX {
            return Err(error_at_token(p, ptr, "文字列が長すぎます。"));
        }
        let size = len + 1;
        let name = store_literal(p, literal);
        let ch = TypeCell::new(Type::Char);
        let typ = ch.make_array_of(size);
        let n = make_lvar(p, name, Some(ptr), Some(typ), false)?;
        proof {
            lemma_shape_top(n);
        }
        Ok(n)
    } else {
        let v = expect_number(&mut p.token_ptr)?;
        let n = new_num(v, Some(ptr));
        proof {
            lemma_shape_top(n);
        }
        Ok(n)
    }
}


/// Whether the token just read closes a statement: a `;` or a `}`.
pub open spec fn ends_stmt(ts: TokenStream) -> bool {
    &&& ts.pos >= 1
    &&& ts.tokens@[ts.pos - 1].kind == Tokenkind::Reserved
    &&& (ts.tokens@[ts.pos - 1]@.body == Some(";"@) || ts.tokens@[ts.pos - 1]@.body == Some("}"@))
}

/// The condition `e` is the expression read from token `lo` up to a `)`.
pub open spec fn cond_read(toks: Seq<Token>, lo: int, e: Node) -> bool {
    exists|k: int| #[trigger] any_pos(k) && lo < k && tok_is(toks, k, ")"@) && reads_expr(toks, lo, k, shape(e))
}

/// Whether a statement starting at the current token is an expression followed by `;`: it
/// starts with none of `;`, a type, `{`, `if`, `while`, `for` and `return`.
pub open spec fn starts_expr_stmt(ts: TokenStream) -> bool {
    &&& !spec_is(ts, ";"@)
    &&& !spec_is_type(ts)
    &&& !spec_is(ts, "{"@)
    &&& !spec_is(ts, "if"@)
    &&& !spec_is(ts, "while"@)
    &&& !spec_is(ts, "for"@)
    &&& cur(ts).kind != Tokenkind::Return
}

/// stmt = expr? ";" | declaration | "{" stmt* "}" | "if" "(" expr ")" stmt ("else" stmt)?
///      | "while" "(" expr ")" stmt | "for" "(" expr? ";" expr? ";" expr? ")" stmt
///      | "return" expr? ";"
pub fn stmt(p: &mut Parser) -> (r: Result<Node, CompileError>)
    requires
        parser_wf(*old(p)),
    ensures
        adv(*old(p), *final(p)),
        r is Ok ==> progressed(*old(p), *final(p)),
        r is Ok ==> ends_stmt(final(p).token_ptr),
        spec_is(old(p).token_ptr, ";"@) ==> r is Ok && r->Ok_0.kind == Nodekind::NumNd && r->Ok_0.val
            == Some(0i32) && read_one(*old(p), *final(p)),
        r is Ok && spec_is(old(p).token_ptr, "{"@) ==> r->Ok_0.kind == Nodekind::BlockNd && all_typed(r->Ok_0.children@),
        r is Ok && spec_is(old(p).token_ptr, "if"@) ==> r->Ok_0.kind == Nodekind::IfNd && r->Ok_0.enter is Some
            && r->Ok_0.branch is Some,
        r is Ok && spec_is(old(p).token_ptr, "while"@) ==> r->Ok_0.kind == Nodekind::WhileNd && r->Ok_0.enter is Some
            && r->Ok_0.branch is Some,
        r matches Ok(n) ==> ((spec_is(old(p).token_ptr, "if"@) || spec_is(old(p).token_ptr, "while"@)) ==> cond_read(
            toks_of(*old(p)),
            pos_of(*old(p)) + 2,
            *n.enter.unwrap(),
        )),
        r is Ok && spec_is(old(p).token_ptr, "for"@) ==> r->Ok_0.kind == Nodekind::ForNd && r->Ok_0.branch is Some
            && for_read(toks_of(*old(p)), pos_of(*old(p)) + 2, r->Ok_0),
        r is Ok && cur(old(p).token_ptr).kind == Tokenkind::Return ==> r->Ok_0.kind == Nodekind::ReturnNd
            && r->Ok_0.left is Some,
        r matches Ok(n) ==> (starts_expr_stmt(old(p).token_ptr) ==> just_read(final(p).token_ptr, ";"@) && reads_expr(
            toks_of(*old(p)),
            pos_of(*old(p)),
            pos_of(*final(p)) - 1,
            shape(n),
        )),
        r matches Ok(n) ==> (cur(old(p).token_ptr).kind == Tokenkind::Return && !op_at(old(p).token_ptr, 1, ";"@)
            ==> reads_expr(toks_of(*old(p)), pos_of(*old(p)) + 1, pos_of(*final(p)) - 1, shape(*n.left.unwrap()))),
        lone_operand(*old(p)) && op_at(old(p).token_ptr, 1, ";"@) ==> (r matches Ok(n) && final(p).token_ptr.pos
            == old(p).token_ptr.pos + 2 && final(p).lvar_max_offset == old(p).lvar_max_offset && num_read(*old(p), n)),
        forall|k: nat|
            #[trigger] operand_list(*old(p), k) && op_at(old(p).token_ptr, 2 * k + 1int, ";"@) ==> (r matches Ok(n)
                && final(p).token_ptr.pos == old(p).token_ptr.pos + 2 * k + 2 && (k > 0 ==> n.kind == Nodekind::CommaNd)),
        spec_is(old(p).token_ptr, "{"@) && op_at(old(p).token_ptr, 1, "}"@) ==> (r matches Ok(n) && n.kind
            == Nodekind::BlockNd && n.children@.len() == 0 && final(p).token_ptr.pos == old(p).token_ptr.pos + 2),
        spec_is(old(p).token_ptr, "if"@) && op_at(old(p).token_ptr, 1, "("@) && lone_operand(shifted(*old(p), 2))
            && op_at(old(p).token_ptr, 3, ")"@) && op_at(old(p).token_ptr, 4, ";"@) && !op_at(old(p).token_ptr, 5, "else"@)
            ==> (r matches Ok(n) && n.kind == Nodekind::IfNd && n.els is None && final(p).token_ptr.pos == old(p).token_ptr.pos
            + 5 && n.init is None && n.routine is None && num_read(shifted(*old(p), 2), *n.enter.unwrap()) && (
            n.branch matches Some(b) && b.kind == Nodekind::NumNd && b.val == Some(0i32))),
        spec_is(old(p).token_ptr, "while"@) && op_at(old(p).token_ptr, 1, "("@) && lone_operand(shifted(*old(p), 2))
            && op_at(old(p).token_ptr, 3, ")"@) && op_at(old(p).token_ptr, 4, ";"@) ==> (r matches Ok(n) && n.kind
            == Nodekind::WhileNd && final(p).token_ptr.pos == old(p).token_ptr.pos + 5 && n.init is None && n.routine is None
            && n.els is None && num_read(shifted(*old(p), 2), *n.enter.unwrap()) && (n.branch matches Some(b) && b.kind
            == Nodekind::NumNd && b.val == Some(0i32))),
        spec_is(old(p).token_ptr, "for"@) && op_at(old(p).token_ptr, 1, "("@) && op_at(old(p).token_ptr, 2, ";"@) && op_at(
            old(p).token_ptr,
            3,
            ";"@,
        ) && op_at(old(p).token_ptr, 4, ")"@) && op_at(old(p).token_ptr, 5, ";"@) ==> (r matches Ok(n) && n.kind
            == Nodekind::ForNd && n.init is None && n.enter is None && n.routine is None && n.els is None && (n.branch matches Some(
            b,
        ) && b.kind == Nodekind::NumNd && b.val == Some(0i32)) && final(p).token_ptr.pos == old(p).token_ptr.pos + 6),
    decreases rem(*old(p)), 90int,
{
    proof {
        reveal_strlit(";");
        reveal_strlit("{");
        reveal_strlit("if");
        reveal_strlit("while");
        reveal_strlit("for");
        reveal_strlit("int");
        reveal_strlit("char");
        assert("{"@.len() == 1 && "if"@.len() == 2 && "int"@.len() == 3 && "char"@.len() == 4);
        assert("while"@.len() == 5 && "for"@.len() == 3 && "for"@[0] != "int"@[0]);
        assert("{"@ != "char"@ && "{"@ != "int"@);
        assert("if"@ != "char"@ && "if"@ != "int"@);
        assert("while"@ != "char"@ && "while"@ != "int"@);
        assert("for"@ != "char"@ && "for"@ != "int"@);
        assert(";"@ =~= seq![';']);
        assert("{"@ =~= seq!['{']);
        assert(";"@ != "{"@) by {
            assert(";"@[0] != "{"@[0]);
        }
    }
    if crate::tokenizer::is(&p.token_ptr, ";") {
        let _ = consume(&mut p.token_ptr, ";");
        Ok(new_num(0, None))
    } else if is_type(&p.token_ptr) {
        declaration(p)
    } else if crate::tokenizer::is(&p.token_ptr, "{") {
        block(p)
    } else if crate::tokenizer::is(&p.token_ptr, "if") {
        if_stmt(p)
    } else if crate::tokenizer::is(&p.token_ptr, "while") {
        while_stmt(p)
    } else if crate::tokenizer::is(&p.token_ptr, "for") {
        for_stmt(p)
    } else if is_kind(&p.token_ptr, Tokenkind::Return) {
        return_stmt(p)
    } else {
        let ghost o = *p;
        let node = expr(p)?;
        proof {
            assert forall|k: nat| #[trigger] operand_list(o, k) && op_at(o.token_ptr, 2 * k + 1int, ";"@) implies spec_is(
                p.token_ptr,
                ";"@,
            ) && p.token_ptr.pos == o.token_ptr.pos + 2 * k + 1 by {
                assert(*p == shifted(o, 2 * k + 1int) && p.token_ptr.pos == o.token_ptr.pos + 2 * k + 1);
            }
        }
        expect(&mut p.token_ptr, ";")?;
        Ok(node)
    }
}

/// "{" stmt* "}": a block; each statement is typed.
fn block(p: &mut Parser) -> (r: Result<Node, CompileError>)
    requires
        parser_wf(*old(p)),
        spec_is(old(p).token_ptr, "{"@),
    ensures
        adv(*old(p), *final(p)),
        r is Ok ==> progressed(*old(p), *final(p)) && r->Ok_0.kind == Nodekind::BlockNd,
        r is Ok ==> ends_stmt(final(p).token_ptr),
        r matches Ok(n) ==> all_typed(n.children@),
        op_at(old(p).token_ptr, 1, "}"@) ==> (r matches Ok(n) && n.children@.len() == 0 && final(p).token_ptr.pos
            == old(p).token_ptr.pos + 2),
    decreases rem(*old(p)), 89int,
{
    let _ = consume(&mut p.token_ptr, "{");
    let mut children: Vec<Node> = Vec::new();
    loop
        invariant_except_break
            op_at(old(p).token_ptr, 1, "}"@) ==> p.token_ptr.pos == old(p).token_ptr.pos + 1 && children@.len() == 0,
        invariant
            adv(*old(p), *p),
            progressed(*old(p), *p),
            all_typed(children@),
        ensures
            ends_stmt(p.token_ptr),
            op_at(old(p).token_ptr, 1, "}"@) ==> p.token_ptr.pos == old(p).token_ptr.pos + 2 && children@.len() == 0,
        decreases rem(*p),
    {
        if consume(&mut p.token_ptr, "}") {
            break;
        }
        if at_eof(&p.token_ptr) {
            return Err(error_msg("'{'にマッチする'}'が見つかりません。"));
        }
        let mut s = stmt(p)?;
        let ghost s0 = s;
        confirm_type(&mut s, &p.token_ptr.tokens)?;
        proof {
            lemma_typed_result(s0, s);
        }
        let ghost before = children@;
        children.push(s);
        proof {
            assert forall|i: int| 0 <= i < children@.len() implies type_result(#[trigger] children@[i]) == Some(children@[i].typ) by {
                if i < before.len() {
                    assert(children@[i] == before[i]);
                }
            }
        }
    }
    let mut n = Node::blank(Nodekind::BlockNd);
    n.children = children;
    Ok(n)
}

/// "if" "(" expr ")" stmt ("else" stmt)?
fn if_stmt(p: &mut Parser) -> (r: Result<Node, CompileError>)
    requires
        parser_wf(*old(p)),
        spec_is(old(p).token_ptr, "if"@),
    ensures
        adv(*old(p), *final(p)),
        r is Ok ==> progressed(*old(p), *final(p)) && r->Ok_0.kind == Nodekind::IfNd,
        r is Ok ==> ends_stmt(final(p).token_ptr),
        r matches Ok(n) ==> n.enter is Some && n.branch is Some && n.init is None && n.routine is None,
        r matches Ok(n) ==> cond_read(toks_of(*old(p)), pos_of(*old(p)) + 2, *n.enter.unwrap()),
        op_at(old(p).token_ptr, 1, "("@) && lone_operand(shifted(*old(p), 2)) && op_at(old(p).token_ptr, 3, ")"@)
            && op_at(old(p).token_ptr, 4, ";"@) && !op_at(old(p).token_ptr, 5, "else"@) ==> (r matches Ok(n)
            && n.els is None && final(p).token_ptr.pos == old(p).token_ptr.pos + 5 && num_read(
            shifted(*old(p), 2),
            *n.enter.unwrap(),
        ) && (n.branch matches Some(b) && b.kind == Nodekind::NumNd && b.val == Some(0i32))),
    decreases rem(*old(p)), 89int,
{
    let ghost o = *p;
    let _ = consume(&mut p.token_ptr, "if");
    expect(&mut p.token_ptr, "(")?;
    proof {
        if op_at(o.token_ptr, 1, "("@) {
            assert(*p == shifted(o, 2));
        }
    }
    let enter = expr(p)?;
    proof {
        assert(any_pos(pos_of(*p)));
    }
    expect(&mut p.token_ptr, ")")?;
    let branch = stmt(p)?;
    let els = if consume(&mut p.token_ptr, "else") {
        Some(Box::new(stmt(p)?))
    } else {
        None
    };
    Ok(new_ctrl(Nodekind::IfNd, None, Some(Box::new(enter)), None, Some(Box::new(branch)), els))
}

/// "while" "(" expr ")" stmt
fn while_stmt(p: &mut Parser) -> (r: Result<Node, CompileError>)
    requires
        parser_wf(*old(p)),
        spec_is(old(p).token_ptr, "while"@),
    ensures
        adv(*old(p), *final(p)),
        r is Ok ==> progressed(*old(p), *final(p)) && r->Ok_0.kind == Nodekind::WhileNd,
        r is Ok ==> ends_stmt(final(p).token_ptr),
        r matches Ok(n) ==> n.enter is Some && n.branch is Some && n.init is None && n.routine is None && n.els is None,
        r matches Ok(n) ==> cond_read(toks_of(*old(p)), pos_of(*old(p)) + 2, *n.enter.unwrap()),
        op_at(old(p).token_ptr, 1, "("@) && lone_operand(shifted(*old(p), 2)) && op_at(old(p).token_ptr, 3, ")"@)
            && op_at(old(p).token_ptr, 4, ";"@) ==> (r matches Ok(n) && final(p).token_ptr.pos == old(p).token_ptr.pos + 5
            && num_read(shifted(*old(p), 2), *n.enter.unwrap()) && (n.branch matches Some(b) && b.kind == Nodekind::NumNd
            && b.val == Some(0i32))),
    decreases rem(*old(p)), 89int,
{
    let ghost o = *p;
    let _ = consume(&mut p.token_ptr, "while");
    expect(&mut p.token_ptr, "(")?;
    proof {
        if op_at(o.token_ptr, 1, "("@) {
            assert(*p == shifted(o, 2));
        }
    }
    let enter = expr(p)?;
    proof {
        assert(any_pos(pos_of(*p)));
    }
    expect(&mut p.token_ptr, ")")?;
    let branch = stmt(p)?;
    Ok(new_ctrl(Nodekind::WhileNd, None, Some(Box::new(enter)), None, Some(Box::new(branch)), None))
}

/// "for" "(" expr? ";" expr? ";" expr? ")" stmt
fn for_stmt(p: &mut Parser) -> (r: Result<Node, CompileError>)
    requires
        parser_wf(*old(p)),
        spec_is(old(p).token_ptr, "for"@),
    ensures
        adv(*old(p), *final(p)),
        r is Ok ==> progressed(*old(p), *final(p)) && r->Ok_0.kind == Nodekind::ForNd,
        r is Ok ==> ends_stmt(final(p).token_ptr),
        r matches Ok(n) ==> n.branch is Some && n.els is None && (n.init is None <==> op_at(old(p).token_ptr, 2, ";"@)),
        op_at(old(p).token_ptr, 1, "("@) && op_at(old(p).token_ptr, 2, ";"@) && op_at(old(p).token_ptr, 3, ";"@)
            && op_at(old(p).token_ptr, 4, ")"@) && op_at(old(p).token_ptr, 5, ";"@) ==> (r matches Ok(n) && n.init is None
            && n.enter is None && n.routine is None && final(p).token_ptr.pos == old(p).token_ptr.pos + 6 && (n.branch matches Some(
            b,
        ) && b.kind == Nodekind::NumNd && b.val == Some(0i32))),
        r matches Ok(n) ==> for_read(toks_of(*old(p)), pos_of(*old(p)) + 2, n),
    decreases rem(*old(p)), 89int,
{
    let _ = consume(&mut p.token_ptr, "for");
    expect(&mut p.token_ptr, "(")?;
    assert(p.token_ptr.pos == old(p).token_ptr.pos + 2);
    let ghost toks = toks_of(*p);
    let ghost lo = pos_of(*p);
    let init = if consume(&mut p.token_ptr, ";") {
        None
    } else {
        let e = expr(p)?;
        expect(&mut p.token_ptr, ";")?;
        Some(Box::new(e))
    };
    let ghost a = pos_of(*p) - 1;
    proof {
        assert(tok_is(toks, a, ";"@));
        assert(clause_read(toks, lo, a, init));
    }
    let enter = if consume(&mut p.token_ptr, ";") {
        None
    } else {
        let e = expr(p)?;
        expect(&mut p.token_ptr, ";")?;
        Some(Box::new(e))
    };
    let ghost b = pos_of(*p) - 1;
    proof {
        assert(tok_is(toks, b, ";"@));
        assert(clause_read(toks, a + 1, b, enter));
    }
    let routine = if consume(&mut p.token_ptr, ")") {
        None
    } else {
        let e = expr(p)?;
        expect(&mut p.token_ptr, ")")?;
        Some(Box::new(e))
    };
    let ghost c = pos_of(*p) - 1;
    proof {
        assert(tok_is(toks, c, ")"@));
        assert(clause_read(toks, b + 1, c, routine));
    }
    let branch = stmt(p)?;
    proof {
        assert(any_pos(a) && any_pos(b) && any_pos(c));
    }
    Ok(new_ctrl(Nodekind::ForNd, init, enter, routine, Some(Box::new(branch)), None))
}

/// The optional clause `e` is read from the tokens `lo` up to `hi`: absent where the range is
/// empty, else an expression over the whole range.
pub open spec fn clause_read(toks: Seq<Token>, lo: int, hi: int, e: Option<Box<Node>>) -> bool {
    match e {
        None => hi == lo,
        Some(x) => lo < hi && reads_expr(toks, lo, hi, shape(*x)),
    }
}

/// The clauses of the `for` statement `n`, whose `(` ends just before `lo`, are read in order:
/// its first clause up to the first `;`, its condition (`enter`) up to the second `;`, and its
/// step (`routine`) up to the `)`.
pub open spec fn for_read(toks: Seq<Token>, lo: int, n: Node) -> bool {
    exists|a: int, b: int, c: int|
        #![trigger any_pos(a), any_pos(b), any_pos(c)]
        any_pos(a) && any_pos(b) && any_pos(c) && lo <= a < b < c && tok_is(toks, a, ";"@) && tok_is(toks, b, ";"@)
            && tok_is(toks, c, ")"@) && clause_read(toks, lo, a, n.init) && clause_read(toks, a + 1, b, n.enter)
            && clause_read(toks, b + 1, c, n.routine)
}

/// "return" expr? ";" (a bare `return` returns 0)
fn return_stmt(p: &mut Parser) -> (r: Result<Node, CompileError>)
    requires
        parser_wf(*old(p)),
        cur(old(p).token_ptr).kind == Tokenkind::Return,
    ensures
        adv(*old(p), *final(p)),
        r is Ok ==> progressed(*old(p), *final(p)) && r->Ok_0.kind == Nodekind::ReturnNd,
        r is Ok ==> ends_stmt(final(p).token_ptr),
        r matches Ok(n) ==> n.left is Some && n.token == Some(old(p).token_ptr.pos),
        op_at(old(p).token_ptr, 1, ";"@) ==> (r matches Ok(n) && (n.left matches Some(z) && z.kind == Nodekind::NumNd
            && z.val == Some(0i32)) && final(p).token_ptr.pos == old(p).token_ptr.pos + 2),
        r matches Ok(n) ==> (!op_at(old(p).token_ptr, 1, ";"@) ==> reads_expr(
            toks_of(*old(p)),
            pos_of(*old(p)) + 1,
            pos_of(*final(p)) - 1,
            shape(*n.left.unwrap()),
        )),
    decreases rem(*old(p)), 89int,
{
    let ptr = here(p);
    let _ = consume_kind(&mut p.token_ptr, Tokenkind::Return);
    assert(p.token_ptr.pos == old(p).token_ptr.pos + 1);
    let left = if consume(&mut p.token_ptr, ";") {
        new_num(0, None)
    } else {
        let e = expr(p)?;
        expect(&mut p.token_ptr, ";")?;
        e
    };
    Ok(new_unary(Nodekind::ReturnNd, left, Some(ptr)))
}

/// The current token of `p` starts the declaration of one new variable without initial
/// value: a type, a name that no local variable has, and `;`, with room in the frame.
pub open spec fn plain_decl(p: Parser) -> bool {
    let ts = p.token_ptr;
    &&& spec_is_type(ts)
    &&& ts.tokens@[ts.pos + 1].kind == Tokenkind::Ident
    &&& op_at(ts, 2, ";"@)
    &&& forall|i: int| 0 <= i < p.locals@.len() ==> (#[trigger] p.locals@[i]).name@ != ts.tokens@[ts.pos + 1]@.body.unwrap()
    &&& new_slot(p.lvar_max_offset, Some(spec_new(spec_type_of(cur_body(ts)).unwrap()))) is Some
}

/// declaration = type lvar-decl ("," lvar-decl)* ";"
pub fn declaration(p: &mut Parser) -> (r: Result<Node, CompileError>)
    requires
        parser_wf(*old(p)),
    ensures
        adv(*old(p), *final(p)),
        r is Ok ==> progressed(*old(p), *final(p)),
        r is Ok ==> ends_stmt(final(p).token_ptr),
        plain_decl(*old(p)) ==> (r matches Ok(n) && n.kind == Nodekind::NopNd && final(p).token_ptr.pos
            == old(p).token_ptr.pos + 3),
    decreases rem(*old(p)), 85int,
{
    proof {
        reveal_strlit(";");
        reveal_strlit(",");
        reveal_strlit("[");
        reveal_strlit("=");
        assert(";"@ != ","@ && ";"@ != "["@ && ";"@ != "="@) by {
            assert(";"@[0] != ","@[0] && ";"@[0] != "["@[0] && ";"@[0] != "="@[0]);
        }
    }
    let typ = expect_type(&mut p.token_ptr)?;
    let mut node = lvar_decl(p, typ.copy())?;
    loop
        invariant
            adv(*old(p), *p),
            progressed(*old(p), *p),
            plain_decl(*old(p)) ==> node.kind == Nodekind::NopNd && p.token_ptr.pos == old(p).token_ptr.pos + 2,
            ";"@ != ","@,
        decreases rem(*p),
    {
        let ptr_comma = here(p);
        if !consume(&mut p.token_ptr, ",") {
            break;
        }
        let d = lvar_decl(p, typ.copy())?;
        node = new_binary(Nodekind::CommaNd, node, d, Some(ptr_comma));
    }
    expect(&mut p.token_ptr, ";")?;
    Ok(node)
}

/// lvar-decl = ident ("[" array-suffix)? ("=" initializer)?
pub fn lvar_decl(p: &mut Parser, typ: TypeCell) -> (r: Result<Node, CompileError>)
    requires
        parser_wf(*old(p)),
    ensures
        adv(*old(p), *final(p)),
        r is Ok ==> progressed(*old(p), *final(p)),
        cur(old(p).token_ptr).kind == Tokenkind::Ident && (exists|i: int|
            0 <= i < old(p).locals@.len() && (#[trigger] old(p).locals@[i]).name@ == cur_body(old(p).token_ptr))
            ==> r is Err,
        cur(old(p).token_ptr).kind == Tokenkind::Ident && decl_type(
            old(p).token_ptr.tokens@,
            old(p).token_ptr.pos + 1,
            typ,
        ) is None ==> r is Err,
        ({
            let toks = old(p).token_ptr.tokens@;
            let at = old(p).token_ptr.pos + 1;
            match decl_type(toks, at, typ) {
                Some((t, f, n)) => cur(old(p).token_ptr).kind == Tokenkind::Ident && (forall|i: int|
                    0 <= i < old(p).locals@.len() ==> (#[trigger] old(p).locals@[i]).name@ != cur_body(old(p).token_ptr))
                    && !tok_is(toks, at + n, "="@) ==> {
                    &&& (r is Ok <==> !f && new_slot(old(p).lvar_max_offset, Some(t)) is Some)
                    &&& r matches Ok(nd) ==> {
                        &&& nd.kind == Nodekind::NopNd
                        &&& final(p).token_ptr.pos == at + n
                        &&& final(p).locals@.drop_last() == old(p).locals@
                        &&& final(p).locals@.last().name@ == cur_body(old(p).token_ptr)
                        &&& final(p).locals@.last().typ == t
                        &&& final(p).locals@.last().offset == new_slot(old(p).lvar_max_offset, Some(t)).unwrap()
                    }
                },
                None => true,
            }
        }),
    decreases rem(*old(p)), 84int,
{
    proof {
        reveal_strlit("[");
        reveal_strlit("=");
        assert("["@ =~= seq!['['] && "="@ =~= seq!['=']);
        assert("["@ != "="@) by {
            assert("["@[0] != "="@[0]);
        }
    }
    let ptr = here(p);
    let name = expect_ident(&mut p.token_ptr)?;
    if find_local(p, &name).is_some() {
        return Err(error_at_token(p, ptr, "既に宣言された変数です。"));
    }
    let mut typ = typ;
    let mut is_flex = false;
    if consume(&mut p.token_ptr, "[") {
        let (t, f) = array_suffix(p, typ)?;
        typ = t;
        is_flex = f;
    }
    if consume(&mut p.token_ptr, "=") {
        lvar_initializer(p, name, typ, is_flex, ptr)
    } else {
        if is_flex {
            return Err(error_at_token(p, ptr, "初期化しない場合は完全な配列サイズが必要です。"));
        }
        let _ = make_lvar(p, name, Some(ptr), Some(typ), true)?;
        Ok(nop())
    }
}

/// The type declared by the tokens from `at` on (just after the name) for a base type
/// `typ`: `typ` itself, or an array when `[` follows; whether its first size is left open;
/// and the number of tokens its suffix takes. None where the array suffix is malformed.
pub open spec fn decl_type(toks: Seq<Token>, at: int, typ: TypeCell) -> Option<(TypeCell, bool, int)> {
    if tok_is(toks, at, "["@) {
        match array_suffix_spec(toks, at + 1, typ) {
            Some((t, f, n)) => Some((t, f, n + 1)),
            None => None,
        }
    } else {
        Some((typ, false, 0int))
    }
}

/// Whether token `at` of `toks` is the reserved token `op`.
pub open spec fn tok_is(toks: Seq<Token>, at: int, op: Seq<char>) -> bool {
    0 <= at < toks.len() && toks[at].kind == Tokenkind::Reserved && toks[at]@.body == Some(op)
}

/// The array suffix `N "]" ("[" N "]")*` read from token `at` of `toks`, for elements of type
/// `base`: the array type it makes (the first size outermost) and the number of tokens it
/// takes; none where the tokens are no such suffix or a type gets too deep.
pub open spec fn sized_suffix(toks: Seq<Token>, at: int, base: TypeCell) -> Option<(TypeCell, int)>
    decreases toks.len() - at,
{
    if at < 0 || at >= toks.len() {
        None
    } else if toks[at].kind == Tokenkind::Num && tok_is(toks, at + 1, "]"@) {
        let size = toks[at].val.unwrap() as usize;
        let inner = if tok_is(toks, at + 2, "["@) {
            if tok_is(toks, at + 3, "]"@) || at + 3 >= toks.len() {
                None
            } else {
                match sized_suffix(toks, at + 3, base) {
                    Some((t, n)) => Some((t, n + 3)),
                    None => None,
                }
            }
        } else {
            Some((base, 2int))
        };
        match inner {
            Some((t, n)) => if t.chains == usize::MAX {
                None
            } else {
                Some((spec_array_of(t, size), n))
            },
            None => None,
        }
    } else {
        None
    }
}

/// The array suffix read from token `at` (just after `[`) for elements of type `base`: a
/// sized suffix, or `]` for an array whose first size comes from its initializer (then
/// `true`), followed by sized levels; the type, whether the first size is left open, and the
/// number of tokens taken; none where the tokens are no array suffix.
pub open spec fn array_suffix_spec(toks: Seq<Token>, at: int, base: TypeCell) -> Option<(TypeCell, bool, int)> {
    if 0 <= at < toks.len() && toks[at].kind == Tokenkind::Num {
        match sized_suffix(toks, at, base) {
            Some((t, n)) => Some((t, false, n)),
            None => None,
        }
    } else if tok_is(toks, at, "]"@) {
        let inner = if tok_is(toks, at + 1, "["@) {
            if tok_is(toks, at + 2, "]"@) || at + 2 >= toks.len() {
                None
            } else {
                match sized_suffix(toks, at + 2, base) {
                    Some((t, n)) => Some((t, n + 2)),
                    None => None,
                }
            }
        } else {
            Some((base, 1int))
        };
        match inner {
            Some((t, n)) => if t.chains == usize::MAX {
                None
            } else {
                Some((TypeCell { array_size: None, ..spec_array_of(t, 0) }, true, n))
            },
            None => None,
        }
    } else {
        None
    }
}

/// array-suffix = num? "]" ("[" array-suffix)?: the array type of the dimensions read (the
/// outermost may be left out, which makes the array's length unknown) and whether it was
/// left out.
pub fn array_suffix(p: &mut Parser, typ: TypeCell) -> (r: Result<(TypeCell, bool), CompileError>)
    requires
        parser_wf(*old(p)),
    ensures
        adv(*old(p), *final(p)),
        r is Ok ==> progressed(*old(p), *final(p)),
        r is Ok ==> r->Ok_0.0.typ == Type::Array,
        r is Ok ==> (r->Ok_0.1 <==> r->Ok_0.0.array_size is None),
        r is Ok <==> array_suffix_spec(old(p).token_ptr.tokens@, old(p).token_ptr.pos as int, typ) is Some,
        r matches Ok((t, f)) ==> ({
            let (st, sf, n) = array_suffix_spec(old(p).token_ptr.tokens@, old(p).token_ptr.pos as int, typ).unwrap();
            t == st && f == sf && final(p).token_ptr.pos == old(p).token_ptr.pos + n && *final(p) == Parser {
                token_ptr: final(p).token_ptr,
                ..*old(p)
            }
        }),
    decreases rem(*old(p)), 10int,
{
    proof {
        reveal_strlit("-");
        reveal_strlit("]");
        reveal_strlit("[");
        assert("-"@ =~= seq!['-'] && "]"@ =~= seq![']'] && "["@ =~= seq!['[']);
        assert("-"@ != "]"@ && "["@ != "]"@) by {
            assert("-"@[0] != "]"@[0] && "["@[0] != "]"@[0]);
        }
    }
    let ghost toks = p.token_ptr.tokens@;
    let ghost at = p.token_ptr.pos as int;
    let ghost base = typ;
    let ptr_err = here(p);
    proof {
        if toks[at].kind == Tokenkind::Num {
            assert(at != toks.len() - 1);
            assert(tok_ok(toks[at]@));
        }
    }
    let (size, is_flex) = match consume_number(&mut p.token_ptr) {
        Some(num) => (num as usize, false),
        None => (0, true),
    };
    if consume(&mut p.token_ptr, "-") {
        return Err(error_at_token(p, ptr_err, "配列のサイズは0以上である必要があります。"));
    }
    expect(&mut p.token_ptr, "]")?;
    let ghost first = if is_flex { 1int } else { 2int };
    assert(p.token_ptr.pos == at + first);
    let mut typ = typ;
    let ghost mut taken = first;
    if consume(&mut p.token_ptr, "[") {
        let ptr_err2 = here(p);
        if consume(&mut p.token_ptr, "]") {
            return Err(error_at_token(p, ptr_err2, "2次元目以降の要素サイズは必ず指定する必要があります。"));
        }
        let ghost q = p.token_ptr.pos as int;
        let (t, _) = array_suffix(p, typ)?;
        proof {
            let (st, sf, n) = array_suffix_spec(toks, q, base).unwrap();
            assert(toks[q].kind == Tokenkind::Num);
            assert(sized_suffix(toks, q, base) == Some((st, n)));
            taken = first + 1 + n;
        }
        typ = t;
    }
    if typ.chains == usize::MAX {
        return Err(error_at_token(p, ptr_err, "型が複雑すぎます。"));
    }
    let mut array_typ = typ.make_array_of(size);
    if is_flex {
        array_typ.array_size = None;
    }
    proof {
        assert(p.token_ptr.pos == at + taken);
        if is_flex {
            assert(array_suffix_spec(toks, at, base) == Some((array_typ, true, taken)));
        } else {
            assert(sized_suffix(toks, at, base) == Some((array_typ, taken)));
        }
    }
    Ok((array_typ, is_flex))
}

/// Whether the current token is of kind `k`.
pub open spec fn is_kind_at(ts: TokenStream, k: Tokenkind) -> bool {
    cur(ts).kind == k
}

/// The initialization of local variable `name` of type `typ` (whose outermost length is
/// taken from the initializer when `is_flex`): arrays are cleared first, then the given
/// elements are assigned.
pub fn lvar_initializer(p: &mut Parser, name: Vec<char>, typ: TypeCell, is_flex: bool, lvar_ptr: usize) -> (r: Result<Node, CompileError>)
    requires
        parser_wf(*old(p)),
    ensures
        adv(*old(p), *final(p)),
        r is Ok ==> progressed(*old(p), *final(p)),
        typ.typ == Type::Array && !is_kind_at(old(p).token_ptr, Tokenkind::String) && !spec_is(old(p).token_ptr, "{"@)
            ==> r is Err,
        typ.typ == Type::Array ==> (r matches Ok(n) ==> n.kind == Nodekind::CommaNd && n.token == Some(lvar_ptr)
            && (n.left matches Some(z) && z.kind == Nodekind::ZeroClrNd && (z.left matches Some(v) && v.kind
            == Nodekind::LvarNd && v.is_local))),
        typ.typ != Type::Array && !is_flex && lone_operand(*old(p)) && cur(old(p).token_ptr).kind == Tokenkind::Num
            && cur(old(p).token_ptr).val == Some(0i32) && (forall|i: int|
            0 <= i < old(p).locals@.len() ==> (#[trigger] old(p).locals@[i]).name@ != name@) && new_slot(
            old(p).lvar_max_offset,
            Some(typ),
        ) is Some ==> (r matches Ok(n) && n.kind == Nodekind::NopNd && final(p).token_ptr.pos == old(p).token_ptr.pos
            + 1),
    decreases rem(*old(p)), 83int,
{
    let mut typ = typ;
    let here0 = here(p);
    if typ.is_array() && !is_kind(&p.token_ptr, Tokenkind::String) && !crate::tokenizer::is(&p.token_ptr, "{") {
        return Err(error_at_token(p, here0, "配列の初期化の形式が異なります。"));
    }
    let (dim, _) = typ.array_dim();
    if dim.len() > 1 && is_kind(&p.token_ptr, Tokenkind::String) {
        let ts = typ.type_string();
        return Err(error_at_token3(p, here0, "2次元以上の配列\"", &ts, "\"は単一の文字リテラルでは初期化できません。"));
    }
    let mut init = Initializer::default();
    initializer(p, &typ, &mut init)?;
    if is_flex {
        let count = flex_count_checked(p, &init, here0)?;
        typ.array_size = Some(count);
    }
    let lvar = make_lvar(p, name, Some(lvar_ptr), Some(typ.copy()), true)?;
    let offset = match lvar.offset {
        Some(o) => o,
        None => 0,
    };
    if typ.typ == Type::Array {
        let zero_clear = new_unary(Nodekind::ZeroClrNd, lvar, Some(lvar_ptr));
        let body = make_lvar_init(p, &init, &typ, offset, lvar_ptr)?;
        let mut n = new_binary(Nodekind::CommaNd, zero_clear, body, Some(lvar_ptr));
        Ok(n)
    } else {
        make_lvar_init(p, &init, &typ, offset, lvar_ptr)
    }
}

/// Whether the length of an array of type `t` can be counted from its initializer: it is an
/// array or pointer type whose elements have a nonzero number of scalars that can be
/// computed.
pub open spec fn flex_countable(t: Option<TypeCell>) -> bool {
    &&& t matches Some(a)
    &&& a.typ == Type::Array || a.typ == Type::Ptr
    &&& a.ptr_to matches Some(e)
    &&& crate::typecell::products_fit(crate::typecell::spec_array_dim(*e).0)
    &&& crate::typecell::product(crate::typecell::spec_array_dim(*e).0) > 0
}

/// The length of an array of unknown length given its initializer, or an error when it
/// cannot be computed.
fn flex_count_checked(p: &Parser, init: &Initializer, ix: usize) -> (r: Result<usize, CompileError>)
    ensures
        init.elements@.len() == 0 ==> r is Err,
        r is Ok <==> init.elements@.len() > 0 && flex_countable(init.typ),
        r matches Ok(n) ==> n == crate::initializer::flex_count(
            init.elements@,
            crate::typecell::spec_flatten_size(*init.typ.unwrap().ptr_to.unwrap()),
            0,
        ),
{
    if init.elements.len() == 0 {
        return Err(error_at_token(p, ix, "配列の初期化の形式が異なります。"));
    }
    let ok = match &init.typ {
        Some(t) => (t.typ == Type::Array || t.typ == Type::Ptr) && match &t.ptr_to {
            Some(e) => {
                let (dim, _) = e.array_dim();
                proof {
                    assert(dim@.take(dim@.len() as int) =~= dim@);
                }
                match crate::typecell::product_checked(&dim) {
                    Some(n) => n > 0,
                    None => false,
                }
            },
            None => false,
        },
        None => false,
    };
    if !ok {
        return Err(error_at_token(p, ix, "配列の大きさが扱えません。"));
    }
    Ok(init.flex_elem_count())
}


/// initializer = "{" array-initializer | char-array-initializer | assign: reads the initial
/// value of an object of type `typ` into `init`.
pub fn initializer(p: &mut Parser, typ: &TypeCell, init: &mut Initializer) -> (r: Result<(), CompileError>)
    requires
        parser_wf(*old(p)),
    ensures
        adv(*old(p), *final(p)),
        r is Ok ==> progressed(*old(p), *final(p)),
        r is Ok ==> final(init).typ is Some,
        typ.typ != Type::Array && lone_operand(*old(p)) ==> r is Ok && read_one(*old(p), *final(p)) && final(init).node
            is Some && num_read(*old(p), *final(init).node.unwrap()),
        !spec_is(old(p).token_ptr, "{"@) && cur(old(p).token_ptr).kind != Tokenkind::String ==> (r is Ok
            ==> final(init).typ == Some(*typ) && final(init).node is Some && final(init).elements == old(init).elements),
    decreases rem(*old(p)), 81int,
{
    if typ.typ == Type::Array && typ.ptr_to.is_some() && typ.is_char_1d_array() {
        let save = p.token_ptr.pos;
        let braced = consume(&mut p.token_ptr, "{");
        let ptr = here(p);
        let lit = consume_literal(&mut p.token_ptr);
        p.token_ptr.pos = save;
        if let Some(body) = lit {
            if braced {
                expect(&mut p.token_ptr, "{")?;
            }
            let _ = expect_literal(&mut p.token_ptr)?;
            char_array_initializer(body, typ.array_size, init, ptr)?;
            let _ = consume(&mut p.token_ptr, ",");
            if braced && !consume(&mut p.token_ptr, "}") {
                let h = here(p);
                return Err(error_at_token(p, h, "char の1次元配列を文字列リテラルで初期化する場合は1つのみ配置してください。"));
            }
            return Ok(());
        }
    }
    if consume(&mut p.token_ptr, "{") {
        if typ.is_non_array() {
            let mut scalar = Initializer::default();
            array_initializer(p, typ, &mut scalar)?;
            match scalar.node {
                Some(n) => {
                    init.insert(typ.copy(), *n);
                },
                None => {
                    let h = here(p);
                    return Err(error_at_token(p, h, "配列の初期化の形式が異なります。"));
                },
            }
        } else {
            array_initializer(p, typ, init)?;
        }
    } else {
        if is_kind(&p.token_ptr, Tokenkind::String) && typ.is_array() {
            let ok = match &typ.ptr_to {
                Some(e) => e.typ == Type::Char || e.typ == Type::Ptr || e.typ == Type::Array,
                None => false,
            };
            if !ok {
                let h = here(p);
                let ts = typ.type_string();
                return Err(error_at_token3(p, h, "文字列リテラルで\"", &ts, "\"型の変数を初期化することはできません"));
            }
        }
        let a = assign(p)?;
        init.insert(typ.copy(), a);
    }
    Ok(())
}

/// The value of element `k` of a character array initialized by a string literal with
/// bytes `bytes`: the byte, or 0 past the end.
pub open spec fn char_elem_val(bytes: Seq<u8>, k: int) -> i32 {
    if k < bytes.len() {
        bytes[k] as i32
    } else {
        0
    }
}

/// Element `j` of `elems` is the scalar `char` initializer with value `v`.
pub open spec fn is_char_elem(elems: Seq<Initializer>, j: int, v: i32) -> bool {
    &&& elems[j].typ == Some(crate::typecell::spec_new(Type::Char))
    &&& elems[j].node is Some
    &&& elems[j].node.unwrap().kind == Nodekind::NumNd
    &&& elems[j].node.unwrap().val == Some(v)
}

/// The bytes of the UTF-8 encoding of `body`.
fn utf8_vec(body: &Vec<char>) -> (r: Vec<u8>)
    ensures
        r@ == utf8_seq(body@),
{
    let mut elems: Vec<u8> = Vec::new();
    let mut i: usize = 0;
    proof {
        assert(body@.subrange(0, 0) =~= Seq::<char>::empty());
        assert(elems@ =~= utf8_seq(Seq::<char>::empty()));
    }
    while i < body.len()
        invariant
            i <= body@.len(),
            elems@ == utf8_seq(body@.subrange(0, i as int)),
        decreases body.len() - i,
    {
        let b = crate::tokenizer::utf8_bytes(body[i]);
        let ghost before = elems@;
        let mut k: usize = 0;
        while k < b.len()
            invariant
                k <= b@.len(),
                elems@ == before + b@.subrange(0, k as int),
            decreases b.len() - k,
        {
            elems.push(b[k]);
            proof {
                assert(b@.subrange(0, k + 1) =~= b@.subrange(0, k as int).push(b@[k as int]));
                assert(elems@ =~= before + b@.subrange(0, k + 1));
            }
            k = k + 1;
        }
        proof {
            let pre = body@.subrange(0, i + 1);
            assert(pre.drop_last() =~= body@.subrange(0, i as int));
            assert(b@.subrange(0, b@.len() as int) =~= b@);
            assert(elems@ =~= utf8_seq(pre));
        }
        i = i + 1;
    }
    proof {
        assert(body@.subrange(0, body@.len() as int) =~= body@);
    }
    elems
}

/// Appends to `init` the `char` initializers of the string literal `body` (its UTF-8 bytes):
/// for a known array length, exactly that many (cut, or padded with zeros); otherwise the
/// bytes and a terminating zero. `init` then initializes a `char` array of that length.
pub fn char_array_initializer(body: Vec<char>, array_size: Option<usize>, init: &mut Initializer, ptr: usize) -> (r: Result<(), CompileError>)
    ensures
        r is Err <==> old(init).elements@.len() + utf8_seq(body@).len() + 1 > usize::MAX,
        r is Err ==> *final(init) == *old(init),
        r is Ok ==> ({
            let bytes = utf8_seq(body@);
            let o = old(init).elements@.len();
            let n: int = match array_size {
                Some(s) => s as int,
                None => bytes.len() + 1int,
            };
            &&& final(init).elements@.len() == o + n
            &&& final(init).elements@.subrange(0, o as int) == old(init).elements@
            &&& forall|j: int|
                o <= j < o + n ==> is_char_elem(final(init).elements@, j, #[trigger] char_elem_val(bytes, j - o))
            &&& final(init).typ == Some(crate::typecell::spec_array_of(
                crate::typecell::spec_new(Type::Char),
                match array_size {
                    Some(s) => s,
                    None => final(init).elements@.len() as usize,
                },
            ))
        }),
{
    let elems = utf8_vec(&body);
    if elems.len() >= usize::MAX - init.elements.len() {
        return Err(error_msg("文字列が長すぎます。"));
    }
    let ghost bytes = elems@;
    let ghost o = init.elements@.len();
    let elem_typ = TypeCell::new(Type::Char);
    let size = match array_size {
        Some(size) => {
            let mut ix: usize = 0;
            while ix < size
                invariant
                    ix <= size,
                    elems@ == bytes,
                    elem_typ == crate::typecell::spec_new(Type::Char),
                    init.elements@.len() == o + ix,
                    init.elements@.subrange(0, o as int) == old(init).elements@,
                    forall|j: int| o <= j < o + ix ==> is_char_elem(init.elements@, j, #[trigger] char_elem_val(bytes, j - o)),
                decreases size - ix,
            {
                let v: i32 = if ix < elems.len() {
                    elems[ix] as i32
                } else {
                    0
                };
                let ghost prev = init.elements@;
                let num = new_num(v, Some(ptr));
                let elem = Initializer::new(elem_typ.copy(), num);
                init.push_element(elem);
                proof {
                    assert(init.elements@.subrange(0, o as int) =~= old(init).elements@);
                    assert(char_elem_val(bytes, ix as int) == v);
                    assert forall|j: int| o <= j < o + ix + 1 implies is_char_elem(
                        init.elements@,
                        j,
                        #[trigger] char_elem_val(bytes, j - o),
                    ) by {
                        if j < o + ix {
                            assert(init.elements@[j] == prev[j]);
                            assert(is_char_elem(prev, j, char_elem_val(bytes, j - o)));
                        } else {
                            assert(j == prev.len());
                        }
                    }
                }
                ix = ix + 1;
            }
            size
        },
        None => {
            let mut ix: usize = 0;
            while ix <= elems.len()
                invariant
                    ix <= elems@.len() + 1,
                    elems@ == bytes,
                    elem_typ == crate::typecell::spec_new(Type::Char),
                    init.elements@.len() == o + ix,
                    o + bytes.len() + 1 <= usize::MAX,
                    init.elements@.subrange(0, o as int) == old(init).elements@,
                    forall|j: int| o <= j < o + ix ==> is_char_elem(init.elements@, j, #[trigger] char_elem_val(bytes, j - o)),
                decreases elems@.len() + 1 - ix,
            {
                let v: i32 = if ix < elems.len() {
                    elems[ix] as i32
                } else {
                    0
                };
                let ghost prev = init.elements@;
                let num = new_num(v, Some(ptr));
                let elem = Initializer::new(elem_typ.copy(), num);
                init.push_element(elem);
                proof {
                    assert(init.elements@.subrange(0, o as int) =~= old(init).elements@);
                    assert(char_elem_val(bytes, ix as int) == v);
                    assert forall|j: int| o <= j < o + ix + 1 implies is_char_elem(
                        init.elements@,
                        j,
                        #[trigger] char_elem_val(bytes, j - o),
                    ) by {
                        if j < o + ix {
                            assert(init.elements@[j] == prev[j]);
                            assert(is_char_elem(prev, j, char_elem_val(bytes, j - o)));
                        } else {
                            assert(j == prev.len());
                        }
                    }
                }
                ix = ix + 1;
            }
            init.elements.len()
        },
    };
    init.insert(elem_typ.make_array_of(size), new_num(0, Some(ptr)));
    Ok(())
}

/// array-initializer = initializer ("," initializer)* ","? "}": reads the elements of an
/// object of type `typ`. An element of array type that does not start with "{" takes as many
/// scalar initializers as it has scalars (a string literal fills its innermost arrays).
pub fn array_initializer(p: &mut Parser, typ: &TypeCell, init: &mut Initializer) -> (r: Result<(), CompileError>)
    requires
        parser_wf(*old(p)),
    ensures
        adv(*old(p), *final(p)),
        r is Ok ==> progressed(*old(p), *final(p)),
        r is Ok ==> final(init).typ == Some(*typ) && final(init).node is Some && final(init).elements@.len() > 0,
        r is Ok ==> old(init).elements@.is_prefix_of(final(init).elements@),
        r is Ok ==> tok_is(final(p).token_ptr.tokens@, final(p).token_ptr.pos - 1, "}"@),
        single_element(*old(p), *typ) && old(init).elements@.len() == 0 ==> r is Ok && final(p).token_ptr.pos
            == old(p).token_ptr.pos + 2 && final(init).elements@.len() == 1,
    decreases rem(*old(p)), 82int,
{
    let elem_typ = if (typ.typ == Type::Array || typ.typ == Type::Ptr) && typ.ptr_to.is_some() {
        match typ.make_deref() {
            Ok(t) => t,
            Err(_) => typ.copy(),
        }
    } else if typ.typ == Type::Array || typ.typ == Type::Ptr {
        let h = here(p);
        return Err(error_at_token(p, h, "配列の初期化の形式が異なります。"));
    } else {
        typ.copy()
    };
    let ghost first_elems = init.elements@;
    let ghost prem = single_element(*old(p), *typ) && old(init).elements@.len() == 0;
    proof {
        reveal_strlit(",");
        reveal_strlit("}");
        reveal_strlit("{");
        assert(","@ != "}"@ && "{"@ != "}"@) by {
            assert(","@[0] != "}"@[0] && "{"@[0] != "}"@[0]);
        }
    }
    loop
        invariant_except_break
            prem ==> *p == *old(p) && init.elements@.len() == 0,
        invariant
            adv(*old(p), *p),
            first_elems == old(init).elements@,
            first_elems.is_prefix_of(init.elements@),
            prem == (single_element(*old(p), *typ) && old(init).elements@.len() == 0),
            prem ==> elem_typ == *typ.ptr_to.unwrap(),
            ","@ != "}"@,
        ensures
            prem ==> p.token_ptr.pos == old(p).token_ptr.pos + 2 && init.elements@.len() == 1 && init.elements@[0].node is Some,
            progressed(*old(p), *p),
            first_elems.is_prefix_of(init.elements@),
            tok_is(p.token_ptr.tokens@, p.token_ptr.pos - 1, "}"@),
        decreases rem(*p),
    {
        let start = here(p);
        if crate::tokenizer::is(&p.token_ptr, "{") || elem_typ.is_non_array() {
            let mut elem = Initializer::default();
            initializer(p, &elem_typ, &mut elem)?;
            init.push_element(elem);
        } else {
            let h = here(p);
            if elem_typ.ptr_end.is_none() {
                return Err(error_at_token(p, h, "配列の初期化の形式が異なります。"));
            }
            let base = elem_typ.get_base_cell();
            let (dim, last) = elem_typ.array_dim();
            let flat = match crate::typecell::product_checked(&dim) {
                Some(n) => n,
                None => {
                    return Err(error_at_token(p, h, "配列の大きさが扱えません。"));
                },
            };
            let (base_typ, elem_flatten_size) = if is_kind(&p.token_ptr, Tokenkind::String) && base.typ != Type::Ptr {
                if dim.len() == 0 || last.chains == usize::MAX {
                    return Err(error_at_token(p, h, "配列の初期化の形式が異なります。"));
                }
                let innermost = dim[dim.len() - 1];
                if innermost == 0 {
                    return Err(error_at_token(p, h, "配列の大きさが扱えません。"));
                }
                (last.make_array_of(innermost), flat / innermost)
            } else {
                (base, flat)
            };
            let mut i: usize = 0;
            while i < elem_flatten_size
                invariant
                    !prem,
                    prem == (single_element(*old(p), *typ) && old(init).elements@.len() == 0),
                    adv(*old(p), *p),
                    p.token_ptr.pos >= start,
                    first_elems.is_prefix_of(init.elements@),
                decreases elem_flatten_size - i,
            {
                let mut elem = Initializer::default();
                initializer(p, &base_typ, &mut elem)?;
                if base_typ.is_array() {
                    init.append_elements(elem);
                } else {
                    init.push_element(elem);
                }
                let _ = consume(&mut p.token_ptr, ",");
                if crate::tokenizer::is(&p.token_ptr, "}") {
                    break;
                }
                i = i + 1;
            }
        }
        let _ = consume(&mut p.token_ptr, ",");
        if consume(&mut p.token_ptr, "}") {
            break;
        }
        if here(p) == start {
            return Err(error_at_token(p, start, "初期化子を読み進められません。"));
        }
    }
    if init.elements.len() == 0 {
        let h = here(p);
        return Err(error_at_token(p, h, "配列の初期化の形式が異なります。"));
    }
    let first = match &init.elements[0].node {
        Some(n) => n.copy(),
        None => {
            let h = here(p);
            return Err(error_at_token(p, h, "配列の初期化の形式が異なります。"));
        },
    };
    init.insert(typ.copy(), first);
    Ok(())
}

/// The tokens of `p` are the one element of an array of scalars of type `typ` after its `{`:
/// an operand that stands alone, then `}`.
pub open spec fn single_element(p: Parser, typ: TypeCell) -> bool {
    &&& typ.typ == Type::Array || typ.typ == Type::Ptr
    &&& typ.ptr_to matches Some(e) && e.typ != Type::Array
    &&& lone_operand(p)
    &&& op_at(p.token_ptr, 1, "}"@)
}

/// A local variable at `offset` of type `typ`, for assigning array elements directly.
fn direct_offset_lvar(offset: usize, typ: &TypeCell) -> (r: Node)
    ensures
        r.kind == Nodekind::LvarNd,
        r.offset == Some(offset),
        r.is_local,
        r.typ == Some(*typ),
{
    let mut n = Node::blank(Nodekind::LvarNd);
    n.typ = Some(typ.copy());
    n.offset = Some(offset);
    n.is_local = true;
    n
}

/// Whether every store in the initialization tree `n` stays inside the bytes of the frame
/// from offset `lo` (exclusive) to offset `hi` (inclusive) below `rbp`: the tree is nothing, a
/// sequence of such trees, or an assignment to a local slot whose bytes lie there.
pub open spec fn stores_within(n: Node, lo: int, hi: int) -> bool
    decreases n,
{
    match n.kind {
        Nodekind::NopNd => true,
        Nodekind::CommaNd => match (n.left, n.right) {
            (Some(a), Some(b)) => stores_within(*a, lo, hi) && stores_within(*b, lo, hi),
            _ => false,
        },
        Nodekind::AssignNd => match n.left {
            Some(l) => l.kind == Nodekind::LvarNd && l.is_local && match (l.offset, l.typ) {
                (Some(o), Some(t)) => lo <= o - spec_bytes(t) && o <= hi,
                _ => false,
            },
            None => false,
        },
        _ => false,
    }
}

/// A tree whose stores stay inside a range stays inside any range around it.
proof fn lemma_stores_within_widen(n: Node, lo: int, hi: int, lo2: int, hi2: int)
    requires
        stores_within(n, lo, hi),
        lo2 <= lo,
        hi <= hi2,
    ensures
        stores_within(n, lo2, hi2),
    decreases n,
{
    if n.kind == Nodekind::CommaNd {
        lemma_stores_within_widen(*n.left.unwrap(), lo, hi, lo2, hi2);
        lemma_stores_within_widen(*n.right.unwrap(), lo, hi, lo2, hi2);
    }
}

/// The assignments that the initializer `init` of a local variable of type `typ` at `offset`
/// stands for: one per scalar element that is not zero (the array was cleared before).
pub fn make_lvar_init(p: &mut Parser, init: &Initializer, typ: &TypeCell, offset: usize, ptr: usize) -> (r: Result<Node, CompileError>)
    requires
        parser_wf(*old(p)),
    ensures
        *final(p) == *old(p),
        r matches Ok(n) ==> stores_within(n, offset - spec_bytes(*typ), offset as int),
        typ.typ != Type::Array && init.node is None ==> r is Err,
        typ.typ != Type::Array && (init.node matches Some(e) && e.val == Some(0i32)) ==> (r matches Ok(n) && n.kind
            == Nodekind::NopNd),
        typ.typ != Type::Array && (init.node matches Some(e) && e.val != Some(0i32)) ==> (r matches Ok(n) ==> {
            &&& n.kind == Nodekind::AssignNd
            &&& n.token == Some(ptr)
            &&& n.typ == Some(*typ)
            &&& n.left matches Some(l) && l.kind == Nodekind::LvarNd && l.is_local && l.offset == Some(offset)
                && l.typ == Some(*typ)
        }),
        typ.typ == Type::Array && (typ.array_size is None || typ.ptr_to is None) ==> r is Err,
    decreases init,
{
    if typ.is_array() {
        if typ.ptr_to.is_none() || typ.ptr_end.is_none() {
            return Err(error_at_token(p, ptr, "配列の初期化の形式が異なります。"));
        }
        let elem_typ = match typ.make_deref() {
            Ok(t) => t,
            Err(_) => {
                return Err(error_at_token(p, ptr, "配列の初期化の形式が異なります。"));
            },
        };
        let elem_bytes = match elem_typ.try_bytes() {
            Some(b) => b,
            None => {
                return Err(error_at_token(p, ptr, "配列の大きさが扱えません。"));
            },
        };
        let (edim, _) = elem_typ.array_dim();
        let elem_flatten_size = match crate::typecell::product_checked(&edim) {
            Some(n) => n,
            None => {
                return Err(error_at_token(p, ptr, "配列の大きさが扱えません。"));
            },
        };
        let base_typ = typ.get_base_cell();
        let base_bytes = match base_typ.try_bytes() {
            Some(b) => b,
            None => {
                return Err(error_at_token(p, ptr, "配列の大きさが扱えません。"));
            },
        };
        let size = match typ.array_size {
            Some(s) => s,
            None => {
                return Err(error_at_token(p, ptr, "配列の大きさが扱えません。"));
            },
        };
        if elem_bytes == 0 || elem_flatten_size == 0 {
            return Err(error_at_token(p, ptr, "配列の大きさが扱えません。"));
        }
        let typ_bytes = match typ.try_bytes() {
            Some(b) => b,
            None => {
                return Err(error_at_token(p, ptr, "配列の大きさが扱えません。"));
            },
        };
        if elem_flatten_size.checked_mul(base_bytes) != Some(elem_bytes) || size.checked_mul(elem_bytes) != Some(typ_bytes) {
            return Err(error_at_token(p, ptr, "配列の大きさが扱えません。"));
        }
        let mut node = nop();
        let mut ix: usize = 0;
        let mut finished: usize = 0;
        let ghost mut j: int = 0;
        let ghost lo = offset - typ_bytes;
        proof {
            assert(finished == j * elem_bytes);
        }
        while finished / elem_bytes < size && ix < init.elements.len()
            invariant
                *p == *old(p),
                parser_wf(*old(p)),
                typ.typ == Type::Array,
                elem_bytes > 0,
                elem_flatten_size > 0,
                ix <= init.elements@.len(),
                elem_bytes == elem_flatten_size * base_bytes,
                typ_bytes == size * elem_bytes,
                spec_bytes(*typ) == typ_bytes,
                spec_bytes(base_typ) == base_bytes,
                spec_bytes(elem_typ) == elem_bytes,
                lo == offset - typ_bytes,
                0 <= j,
                ix < init.elements@.len() ==> finished == j * elem_bytes,
                stores_within(node, lo, offset as int),
            decreases init.elements@.len() - ix,
        {
            proof {
                assert(finished / elem_bytes == j) by (nonlinear_arith)
                    requires
                        finished == j * elem_bytes,
                        elem_bytes > 0,
                        j >= 0,
                ;
                assert((j + 1) * elem_bytes <= typ_bytes) by (nonlinear_arith)
                    requires
                        j < size,
                        typ_bytes == size * elem_bytes,
                        elem_bytes > 0,
                ;
                assert((j + 1) * elem_bytes == j * elem_bytes + elem_bytes) by (nonlinear_arith);
            }
            if init.elements[ix].is_element() {
                let mut k: usize = 0;
                let ghost ix0 = ix;
                let ghost start = finished as int;
                while k < elem_flatten_size
                    invariant_except_break
                        ix < init.elements@.len(),
                        ix == ix0 + k,
                        finished == start + k * base_bytes,
                    invariant
                        *p == *old(p),
                        parser_wf(*old(p)),
                parser_wf(*old(p)),
                        init.elements@.len() <= usize::MAX,
                        typ.typ == Type::Array,
                        ix0 < init.elements@.len(),
                        ix0 <= ix <= init.elements@.len(),
                        elem_flatten_size > 0,
                        elem_bytes == elem_flatten_size * base_bytes,
                        spec_bytes(base_typ) == base_bytes,
                        k <= elem_flatten_size,
                        start + elem_bytes <= typ_bytes,
                        lo == offset - typ_bytes,
                        stores_within(node, lo, offset as int),
                    ensures
                        ix0 < ix <= init.elements@.len(),
                        ix < init.elements@.len() ==> finished == start + elem_bytes,
                        stores_within(node, lo, offset as int),
                    decreases elem_flatten_size - k,
                {
                    proof {
                        assert(finished + base_bytes <= start + elem_bytes) by (nonlinear_arith)
                            requires
                                finished == start + k * base_bytes,
                                k < elem_flatten_size,
                                elem_bytes == elem_flatten_size * base_bytes,
                        ;
                    }
                    let expr = match &init.elements[ix].node {
                        Some(n) => n.copy(),
                        None => {
                            return Err(error_at_token(p, ptr, "配列の初期化の形式が異なります。"));
                        },
                    };
                    let is_zero = match expr.val {
                        Some(v) => v == 0,
                        None => false,
                    };
                    if !is_zero {
                        if offset < finished {
                            return Err(error_at_token(p, ptr, "配列の大きさが扱えません。"));
                        }
                        let target = direct_offset_lvar(offset - finished, &base_typ);
                        let ghost tg = target;
                        let a = assign_op(p, Nodekind::AssignNd, target, expr, Some(ptr))?;
                        proof {
                            let l = *a.left.unwrap();
                            lemma_typed_fixed(tg, l);
                            assert(stores_within(a, lo, offset as int));
                        }
                        let ghost prev = node;
                        node = new_binary(Nodekind::CommaNd, node, a, Some(ptr));
                        proof {
                            assert(stores_within(node, lo, offset as int));
                        }
                    }
                    ix = ix + 1;
                    if finished > usize::MAX - base_bytes {
                        return Err(error_at_token(p, ptr, "配列の大きさが扱えません。"));
                    }
                    finished = finished + base_bytes;
                    proof {
                        assert(finished == start + (k + 1) * base_bytes) by (nonlinear_arith)
                            requires
                                finished == start + k * base_bytes + base_bytes,
                        ;
                    }
                    if ix >= init.elements.len() {
                        break;
                    }
                    k = k + 1;
                }
                proof {
                    j = j + 1;
                    if ix < init.elements@.len() {
                        assert(finished == j * elem_bytes) by (nonlinear_arith)
                            requires
                                finished == start + elem_bytes,
                                start == (j - 1) * elem_bytes,
                        ;
                    }
                }
            } else {
                if offset < finished {
                    return Err(error_at_token(p, ptr, "配列の大きさが扱えません。"));
                }
                proof {
                    assert(decreases_to!(init => init.elements));
                    assert(decreases_to!(init.elements => init.elements@));
                    assert(decreases_to!(init.elements@ => init.elements@[ix as int]));
                }
                let sub = make_lvar_init(p, &init.elements[ix], &elem_typ, offset - finished, ptr)?;
                proof {
                    lemma_stores_within_widen(
                        sub,
                        (offset - finished) - elem_bytes,
                        (offset - finished) as int,
                        lo,
                        offset as int,
                    );
                }
                node = new_binary(Nodekind::CommaNd, node, sub, Some(ptr));
                ix = ix + 1;
                if finished > usize::MAX - elem_bytes {
                    return Err(error_at_token(p, ptr, "配列の大きさが扱えません。"));
                }
                finished = finished + elem_bytes;
                proof {
                    j = j + 1;
                    assert(finished == j * elem_bytes) by (nonlinear_arith)
                        requires
                            finished == (j - 1) * elem_bytes + elem_bytes,
                    ;
                }
            }
        }
        Ok(node)
    } else {
        let node = match &init.node {
            Some(n) => n.copy(),
            None => {
                return Err(error_at_token(p, ptr, "配列の初期化の形式が異なります。"));
            },
        };
        let is_zero = match node.val {
            Some(v) => v == 0,
            None => false,
        };
        if !is_zero {
            assign_op(p, Nodekind::AssignNd, direct_offset_lvar(offset, typ), node, Some(ptr))
        } else {
            Ok(nop())
        }
    }
}

/// program = global*: the declarations of a whole translation unit, in order. The local
/// variables are forgotten after each declaration.
/// The global nodes `gs` are read one per top-level declaration, in source order: the
/// declarations cover the tokens from `lo` up to `hi` one after another, the `i`-th starting at
/// `starts[i]` with a type and then the name of `gs[i]`.
pub open spec fn one_per_declaration(toks: Seq<Token>, lo: int, hi: int, starts: Seq<int>, gs: Seq<Node>) -> bool {
    &&& starts.len() == gs.len()
    &&& gs.len() == 0 ==> lo == hi
    &&& gs.len() > 0 ==> starts[0] == lo
    &&& forall|i: int| 0 <= i < gs.len() ==> lo <= #[trigger] starts[i] < hi
    &&& forall|i: int| 0 <= i < gs.len() - 1 ==> #[trigger] starts[i] < starts[i + 1]
    &&& forall|i: int|
        0 <= i < gs.len() ==> (#[trigger] gs[i]).name is Some && gs[i].name.unwrap()@ == toks[starts[i] + 1]@.body.unwrap()
}

/// The tokens from the current one of `ts` on are a whole program made of one function with
/// no parameters whose body is `k` statements, each a number and `;`.
pub open spec fn numbers_program(ts: TokenStream, k: nat) -> bool {
    &&& spec_is_type(ts)
    &&& ts.tokens@[ts.pos + 1].kind == Tokenkind::Ident
    &&& op_at(ts, 2, "("@) && op_at(ts, 3, ")"@) && op_at(ts, 4, "{"@) && op_at(ts, 5 + 2 * k as int, "}"@)
    &&& forall|j: int|
        0 <= j < k ==> (#[trigger] ts.tokens@[ts.pos + 5 + 2 * j]).kind == Tokenkind::Num && op_at(ts, 6 + 2 * j, ";"@)
    &&& ts.tokens@[ts.pos + 6 + 2 * k].kind == Tokenkind::Eof
}

pub fn program(p: &mut Parser) -> (r: Result<Vec<Node>, CompileError>)
    requires
        parser_wf(*old(p)),
    ensures
        parser_wf(*final(p)),
        final(p).token_ptr.tokens == old(p).token_ptr.tokens,
        final(p).token_ptr.pos >= old(p).token_ptr.pos,
        keeps_tables(*old(p), *final(p)),
        r is Ok ==> cur(final(p).token_ptr).kind == Tokenkind::Eof,
        r is Ok ==> forall|i: int|
            0 <= i < r->Ok_0@.len() ==> (#[trigger] r->Ok_0@[i]).kind == Nodekind::GlobalNd,
        r matches Ok(gs) ==> (gs@.len() > 0 ==> final(p).locals@.len() == 0 && final(p).lvar_max_offset == 0),
        cur(old(p).token_ptr).kind == Tokenkind::Eof ==> (r matches Ok(gs) && gs@.len() == 0 && *final(p) == *old(p)),
        r matches Ok(gs) ==> exists|starts: Seq<int>|
            #[trigger] one_per_declaration(
                old(p).token_ptr.tokens@,
                old(p).token_ptr.pos as int,
                final(p).token_ptr.pos as int,
                starts,
                gs@,
            ),
        forall|k: nat|
            #[trigger] numbers_program(old(p).token_ptr, k) && old(p).globals@.len() == 0 && old(p).lvar_max_offset == 0
                ==> (r matches Ok(gs) && gs@.len() == 1),
{
    let mut globals: Vec<Node> = Vec::new();
    let ghost mut starts: Seq<int> = Seq::empty();
    proof {
        assert forall|k: nat| #[trigger] numbers_program(old(p).token_ptr, k) && old(p).globals@.len() == 0
            && old(p).lvar_max_offset == 0 implies numbers_def(*old(p), k) by {}
    }
    while !at_eof(&p.token_ptr)
        invariant
            forall|k: nat|
                #[trigger] numbers_program(old(p).token_ptr, k) && old(p).globals@.len() == 0 && old(p).lvar_max_offset == 0
                    ==> numbers_def(*old(p), k) && (globals@.len() == 0 && *p == *old(p) || globals@.len() == 1
                    && p.token_ptr.pos == old(p).token_ptr.pos + 6 + 2 * k),
            one_per_declaration(old(p).token_ptr.tokens@, old(p).token_ptr.pos as int, p.token_ptr.pos as int, starts, globals@),
            parser_wf(*p),
            p.token_ptr.tokens == old(p).token_ptr.tokens,
            p.token_ptr.pos >= old(p).token_ptr.pos,
            keeps_tables(*old(p), *p),
            cur(old(p).token_ptr).kind == Tokenkind::Eof ==> *p == *old(p) && globals@.len() == 0,
            forall|i: int| 0 <= i < globals@.len() ==> (#[trigger] globals@[i]).kind == Nodekind::GlobalNd,
            globals@.len() > 0 ==> p.locals@.len() == 0 && p.lvar_max_offset == 0,
        decreases rem(*p),
    {
        let ghost s0 = p.token_ptr.pos as int;
        let ghost before = globals@;
        let g = global(p)?;
        globals.push(g);
        p.locals = Vec::new();
        p.lvar_max_offset = 0;
        proof {
            lemma_wf_empty(0);
            starts = starts.push(s0);
            assert(globals@[before.len() as int] == g);
            assert forall|i: int| 0 <= i < globals@.len() implies (#[trigger] globals@[i]).name is Some
                && globals@[i].name.unwrap()@ == old(p).token_ptr.tokens@[starts[i] + 1]@.body.unwrap() by {
                if i < before.len() {
                    assert(globals@[i] == before[i]);
                }
            }
        }
    }
    proof {
        assert(one_per_declaration(old(p).token_ptr.tokens@, old(p).token_ptr.pos as int, p.token_ptr.pos as int, starts, globals@));
    }
    Ok(globals)
}

/// Tokens to syntax trees: the global declarations of the program, the string literals it
/// uses with their labels, in order of first appearance, and the tokens read (which errors
/// found later point into).
pub fn parse(token_ptr: TokenStream) -> (r: Result<(Vec<Node>, Vec<Literal>, Vec<Token>), CompileError>)
    requires
        tokens_wf(token_ptr),
    ensures
        r matches Ok((trees, _, tokens)) ==> tokens == token_ptr.tokens && forall|i: int|
            0 <= i < trees@.len() ==> (#[trigger] trees@[i]).kind == Nodekind::GlobalNd,
        r matches Ok((_, literals, _)) ==> literals_wf(literals@),
        cur(token_ptr).kind == Tokenkind::Eof ==> (r matches Ok((trees, literals, tokens)) && trees@.len() == 0
            && literals@.len() == 0 && tokens == token_ptr.tokens),
        forall|k: nat| #[trigger] numbers_program(token_ptr, k) ==> (r matches Ok((trees, _, _)) && trees@.len() == 1),
        r matches Ok((trees, _, _)) ==> exists|starts: Seq<int>, hi: int|
            #[trigger] one_per_declaration(token_ptr.tokens@, token_ptr.pos as int, hi, starts, trees@)
                && token_ptr.tokens@[hi].kind == Tokenkind::Eof,
{
    let mut p = Parser::new(token_ptr);
    proof {
        lemma_wf_empty(0);
        assert(p.locals@ =~= Seq::<LocalVar>::empty());
        assert(p.globals@ =~= Seq::<GlobalDecl>::empty());
        assert(p.literals@ =~= Seq::<Literal>::empty());
    }
    let trees = program(&mut p)?;
    Ok((trees, p.literals, p.token_ptr.tokens))
}

/// The message `pre` + `name` + "は位置[line, offset]" + `post`, naming where the
/// declaration at token `decl` stands.
fn declared_at_msg(p: &Parser, decl: usize, pre: &str, name: &Vec<char>, mid: &str, post: &str) -> (r: Vec<char>)
    ensures
        r@ == pre@ + name@ + mid@ + (if decl < p.token_ptr.tokens@.len() {
            crate::utils::decimal(p.token_ptr.tokens@[decl as int].line_num as nat) + ", "@ + crate::utils::decimal(
                p.token_ptr.tokens@[decl as int].line_offset as nat,
            )
        } else {
            Seq::empty()
        }) + post@,
{
    let mut m = chars_of(pre);
    push_chars(&mut m, name);
    push_str(&mut m, mid);
    let ghost head = m@;
    if decl < p.token_ptr.tokens.len() {
        push_u64(&mut m, p.token_ptr.tokens[decl].line_num as u64);
        push_str(&mut m, ", ");
        push_u64(&mut m, p.token_ptr.tokens[decl].line_offset as u64);
    }
    let ghost place = m@.subrange(head.len() as int, m@.len() as int);
    proof {
        assert(m@ =~= head + place);
    }
    push_str(&mut m, post);
    proof {
        assert(m@ =~= pre@ + name@ + mid@ + place + post@);
    }
    m
}

/// The error `msg` at the token at position `ix`.
fn error_at_token_chars(p: &Parser, ix: usize, msg: &Vec<char>) -> (e: CompileError)
    ensures
        e.msg@ == msg@,
{
    let mut e = error_at_token(p, ix, "");
    push_chars(&mut e.msg, msg);
    proof {
        reveal_strlit("");
        assert(e.msg@ =~= msg@);
    }
    e
}

/// Records the global `decl`, replacing an earlier declaration of the same name.
fn declare_global(p: &mut Parser, decl: GlobalDecl)
    requires
        globals_wf(old(p).globals@),
    ensures
        globals_wf(final(p).globals@),
        final(p).token_ptr == old(p).token_ptr,
        final(p).locals == old(p).locals,
        final(p).lvar_max_offset == old(p).lvar_max_offset,
        final(p).literals == old(p).literals,
        (forall|i: int| 0 <= i < old(p).globals@.len() ==> (#[trigger] old(p).globals@[i]).name@ != decl.name@)
            ==> final(p).globals@ == old(p).globals@.push(decl),
        (exists|i: int| 0 <= i < old(p).globals@.len() && (#[trigger] old(p).globals@[i]).name@ == decl.name@)
            ==> exists|i: int|
            0 <= i < old(p).globals@.len() && (#[trigger] old(p).globals@[i]).name@ == decl.name@
                && final(p).globals@ == old(p).globals@.update(i, decl),        exists|i: int| 0 <= i < final(p).globals@.len() && final(p).globals@[i] == decl,
{
    proof {
        reveal(globals_wf);
    }
    match find_global(p, &decl.name) {
        Some(i) => {
            let ghost g = p.globals@;
            let ghost d = decl;
            p.globals.set(i, decl);
            assert(p.globals@ == g.update(i as int, d));
            assert(p.globals@[i as int] == d);
        },
        None => {
            let ghost g = p.globals@;
            p.globals.push(decl);
            assert(p.globals@[g.len() as int] == decl);
        },
    }
    proof {
        reveal(globals_wf);
    }
}

/// The text of the token `k` places after the current one.
pub open spec fn text_at(ts: TokenStream, k: int) -> Seq<char> {
    ts.tokens@[ts.pos + k]@.body.unwrap()
}

/// Whether the table `globals` has an entry for the global `n`: its name, its type or
/// function type, and whether its body has been read.
pub open spec fn declared(globals: Seq<GlobalDecl>, n: Node) -> bool {
    exists|i: int|
        0 <= i < globals.len() && (#[trigger] globals[i]).name@ == n.name.unwrap()@ && globals[i].typ == n.typ
            && globals[i].func_typ == n.func_typ && globals[i].has_stmts == (n.stmts is Some)
}

/// Whether one of the statements `s` is a `return`.
pub open spec fn returns_somewhere(s: Seq<Node>) -> bool {
    exists|i: int| 0 <= i < s.len() && (#[trigger] s[i]).kind == Nodekind::ReturnNd
}

/// The current token of `p` starts the definition of a new function with no parameters whose
/// body is `k` statements, each a number and `;`: a type, a name that no global has, `(`, `)`,
/// `{`, the statements and `}`, with a frame that can still be rounded up to eight bytes.
pub open spec fn numbers_def(p: Parser, k: nat) -> bool {
    let ts = p.token_ptr;
    &&& spec_is_type(ts)
    &&& ts.tokens@[ts.pos + 1].kind == Tokenkind::Ident
    &&& op_at(ts, 2, "("@) && op_at(ts, 3, ")"@) && op_at(ts, 4, "{"@) && op_at(ts, 5 + 2 * k as int, "}"@)
    &&& forall|j: int|
        0 <= j < k ==> (#[trigger] ts.tokens@[ts.pos + 5 + 2 * j]).kind == Tokenkind::Num && op_at(ts, 6 + 2 * j, ";"@)
    &&& forall|i: int| 0 <= i < p.globals@.len() ==> (#[trigger] p.globals@[i]).name@ != text_at(ts, 1)
    &&& p.lvar_max_offset + 7 <= usize::MAX
}

/// The tokens from the current one on are `k` statements, each a number and `;`, then `}`.
pub open spec fn numbers_body(ts: TokenStream, k: nat) -> bool {
    &&& op_at(ts, 2 * k as int, "}"@)
    &&& forall|j: int|
        0 <= j < k ==> (#[trigger] ts.tokens@[ts.pos + 2 * j]).kind == Tokenkind::Num && op_at(ts, 2 * j + 1, ";"@)
}

/// func-body = stmt* "}", read after the opening `{`: the statements, each typed, and whether
/// one of them is a `return`.
fn func_body(p: &mut Parser) -> (r: Result<(Vec<Node>, bool), CompileError>)
    requires
        parser_wf(*old(p)),
    ensures
        adv(*old(p), *final(p)),
        r is Ok ==> progressed(*old(p), *final(p)),
        r matches Ok((stmts, has_return)) ==> (has_return ==> returns_somewhere(stmts@)),
        forall|k: nat|
            #[trigger] numbers_body(old(p).token_ptr, k) ==> (r matches Ok((stmts, has_return)) && !has_return
                && stmts@.len() == k && final(p).token_ptr.pos == old(p).token_ptr.pos + 2 * k + 1
                && final(p).lvar_max_offset == old(p).lvar_max_offset && forall|j: int|
                0 <= j < k ==> (#[trigger] stmts@[j]).kind == Nodekind::NumNd && stmts@[j].val == old(
                    p,
                ).token_ptr.tokens@[old(p).token_ptr.pos + 2 * j].val),
{
    proof {
        reveal_strlit("}");
        reveal_strlit(";");
    }
    let mut stmts: Vec<Node> = Vec::new();
    let mut has_return = false;
    loop
        invariant_except_break
            forall|k: nat|
                #[trigger] numbers_body(old(p).token_ptr, k) ==> stmts@.len() <= k && p.token_ptr.pos
                    == old(p).token_ptr.pos + 2 * stmts@.len() && !has_return && p.lvar_max_offset == old(p).lvar_max_offset,
        invariant
            adv(*old(p), *p),
            has_return ==> returns_somewhere(stmts@),
            forall|k: nat|
                #[trigger] numbers_body(old(p).token_ptr, k) ==> forall|j: int|
                    0 <= j < stmts@.len() ==> (#[trigger] stmts@[j]).kind == Nodekind::NumNd && stmts@[j].val
                        == old(p).token_ptr.tokens@[old(p).token_ptr.pos + 2 * j].val,
        ensures
            progressed(*old(p), *p),
            forall|k: nat|
                #[trigger] numbers_body(old(p).token_ptr, k) ==> stmts@.len() == k && p.token_ptr.pos == old(p).token_ptr.pos
                    + 2 * k + 1 && !has_return && p.lvar_max_offset == old(p).lvar_max_offset,
        decreases rem(*p),
    {
        let ghost i = stmts@.len();
        proof {
            assert forall|k: nat| #[trigger] numbers_body(old(p).token_ptr, k) && i < k implies !spec_is(p.token_ptr, "}"@)
                && cur(p.token_ptr).kind == Tokenkind::Num && op_at(p.token_ptr, 1, ";"@) by {
                assert(old(p).token_ptr.tokens@[old(p).token_ptr.pos + 2 * i].kind == Tokenkind::Num);
            }
        }
        if consume(&mut p.token_ptr, "}") {
            break;
        }
        let is_return = is_kind(&p.token_ptr, Tokenkind::Return);
        let ghost had = has_return;
        has_return = has_return || is_return;
        proof {
            if exists|k: nat| #[trigger] numbers_body(old(p).token_ptr, k) {
                let k = choose|k: nat| #[trigger] numbers_body(old(p).token_ptr, k);
                assert(i < k);
                lemma_semicolon_ends_operand(p.token_ptr);
                assert(lone_operand(*p));
            }
        }
        let mut s = stmt(p)?;
        confirm_type(&mut s, &p.token_ptr.tokens)?;
        let ghost before = stmts@;
        stmts.push(s);
        proof {
            assert forall|k: nat| #[trigger] numbers_body(old(p).token_ptr, k) implies forall|j: int|
                0 <= j < stmts@.len() ==> (#[trigger] stmts@[j]).kind == Nodekind::NumNd && stmts@[j].val
                    == old(p).token_ptr.tokens@[old(p).token_ptr.pos + 2 * j].val by {
                assert forall|j: int| 0 <= j < stmts@.len() implies (#[trigger] stmts@[j]).kind == Nodekind::NumNd
                    && stmts@[j].val == old(p).token_ptr.tokens@[old(p).token_ptr.pos + 2 * j].val by {
                    if j < before.len() {
                        assert(stmts@[j] == before[j]);
                    }
                }
            }
            if had {
                let i = choose|i: int| 0 <= i < before.len() && (#[trigger] before[i]).kind == Nodekind::ReturnNd;
                assert(stmts@[i] == before[i]);
            } else if is_return {
                assert(stmts@[before.len() as int].kind == Nodekind::ReturnNd);
            }
        }
    }
    Ok((stmts, has_return))
}

/// global = type ident global-suffix
/// global-suffix = "(" func-args ")" ("{" stmt* "}" | ";") | ("[" array-suffix)? ";"
///
/// A function defined without a `return` at its top level returns 0; its local area is
/// rounded up to eight bytes.
#[verifier::rlimit(100)]
pub fn global(p: &mut Parser) -> (r: Result<Node, CompileError>)
    requires
        parser_wf(*old(p)),
    ensures
        adv(*old(p), *final(p)),
        r is Ok ==> progressed(*old(p), *final(p)),
        r matches Ok(n) ==> {
            &&& n.kind == Nodekind::GlobalNd
            &&& n.name matches Some(name) && name@ == text_at(old(p).token_ptr, 1)
            &&& declared(final(p).globals@, n)
            &&& (n.func_typ is None <==> n.typ is Some)
        },
        r matches Ok(n) ==> (n.func_typ is Some ==> n.func_typ.unwrap().typ == Type::Func
            && n.func_typ.unwrap().ret_typ == Some(Box::new(spec_new(spec_type_of(text_at(old(p).token_ptr, 0)).unwrap())))),
        r matches Ok(n) ==> (n.stmts is Some ==> n.func_typ is Some && n.max_offset == Some(final(p).lvar_max_offset)
            && final(p).lvar_max_offset % 8 == 0 && returns_somewhere(n.stmts.unwrap()@)),
        r matches Ok(n) ==> (n.func_typ is None ==> n.stmts is None && forall|i: int|
            0 <= i < old(p).globals@.len() ==> (#[trigger] old(p).globals@[i]).name@ != n.name.unwrap()@),
        r matches Ok(n) ==> (n.func_typ is None ==> (decl_type(
            old(p).token_ptr.tokens@,
            old(p).token_ptr.pos + 2,
            spec_new(spec_type_of(text_at(old(p).token_ptr, 0)).unwrap()),
        ) matches Some((t, _, k)) && n.typ == Some(t) && final(p).token_ptr.pos == old(p).token_ptr.pos + 3 + k)),
        (exists|i: int|
            0 <= i < old(p).globals@.len() && (#[trigger] old(p).globals@[i]).name@ == text_at(old(p).token_ptr, 1)
                && old(p).globals@[i].typ is Some) ==> r is Err,
        spec_is_type(old(p).token_ptr) && old(p).token_ptr.tokens@[old(p).token_ptr.pos + 1].kind == Tokenkind::Ident
            && op_at(old(p).token_ptr, 2, ";"@) && (forall|i: int|
            0 <= i < old(p).globals@.len() ==> (#[trigger] old(p).globals@[i]).name@ != text_at(old(p).token_ptr, 1))
            ==> (r matches Ok(n) && n.func_typ is None && final(p).token_ptr.pos == old(p).token_ptr.pos + 3),
        forall|k: nat|
            #[trigger] numbers_def(*old(p), k) ==> (r matches Ok(n) && n.func_typ is Some && n.args@.len() == 0 && (
            n.stmts matches Some(ss) && ss@.len() == k + 1 && (forall|j: int|
                0 <= j < k ==> (#[trigger] ss@[j]).kind == Nodekind::NumNd && ss@[j].val == old(
                    p,
                ).token_ptr.tokens@[old(p).token_ptr.pos + 5 + 2 * j].val) && ss@[k as int].kind == Nodekind::ReturnNd)
                && final(p).token_ptr.pos == old(p).token_ptr.pos + 6 + 2 * k),
{
    proof {
        reveal_strlit(";");
        reveal_strlit("(");
        reveal_strlit("[");
        reveal_strlit(")");
        reveal_strlit("{");
        reveal_strlit("}");
        reveal_strlit("int");
        reveal_strlit("char");
        assert(";"@ != "("@ && ";"@ != "["@) by {
            assert(";"@[0] != "("@[0] && ";"@[0] != "["@[0]);
        }
        assert(")"@.len() == 1 && "int"@.len() == 3 && "char"@.len() == 4);
        assert(spec_type_of(")"@) is None);
    }
    let mut typ = expect_type(&mut p.token_ptr)?;
    let ptr = here(p);
    let name = expect_ident(&mut p.token_ptr)?;
    let glob = if consume(&mut p.token_ptr, "(") {
        let (args, arg_typs) = func_args(p)?;
        let must_be_proto = args.len() != arg_typs.len();
        let ftyp = TypeCell::make_func(typ, arg_typs);
        expect(&mut p.token_ptr, ")")?;
        let existing = find_global(p, &name);
        proof {
            assert forall|i: int|
                0 <= i < p.globals@.len() && (#[trigger] p.globals@[i]).name@ == name@ && existing is Some
                    implies i == existing.unwrap() by {
                if i != existing.unwrap() {
                    lemma_global_names_unique(p.globals@, i, existing.unwrap() as int);
                }
            }
        }
        let (defined, decl_at) = match existing {
            Some(gi) => {
                let decl_at = p.globals[gi].token;
                if p.globals[gi].typ.is_some() {
                    let m = declared_at_msg(p, decl_at, "\"", &name, "\"は位置[", "]で既にグローバル変数として宣言されています。");
                    return Err(error_at_token_chars(p, ptr, &m));
                }
                (p.globals[gi].has_stmts, decl_at)
            },
            None => (false, 0),
        };
        if consume(&mut p.token_ptr, "{") {
            if must_be_proto {
                return Err(error_at_token(p, ptr, "関数の定義時には引数名を省略できません。"));
            }
            match existing {
                Some(gi) => {
                    if defined {
                        let m = declared_at_msg(p, decl_at, "関数\"", &name, "\"は位置[", "]で既に定義義されています。");
                        return Err(error_at_token_chars(p, ptr, &m));
                    }
                    let compatible = match &p.globals[gi].func_typ {
                        Some(f) => type_cell_eq(&ftyp, f),
                        None => false,
                    };
                    if !compatible {
                        let m = declared_at_msg(p, decl_at, "", &Vec::new(), "プロトタイプ宣言との互換性がありません。(宣言位置: [", "])");
                        return Err(error_at_token_chars(p, ptr, &m));
                    }
                },
                None => {
                    declare_global(p, GlobalDecl {
                        name: copy_chars(&name),
                        typ: None,
                        func_typ: Some(ftyp.copy()),
                        has_stmts: false,
                        token: ptr,
                    });
                },
            }
            proof {
                assert forall|k: nat| #[trigger] numbers_def(*old(p), k) implies numbers_body(p.token_ptr, k) by {
                    assert forall|j: int| 0 <= j < k implies (#[trigger] p.token_ptr.tokens@[p.token_ptr.pos + 2 * j]).kind
                        == Tokenkind::Num && op_at(p.token_ptr, 2 * j + 1, ";"@) by {
                        assert(old(p).token_ptr.tokens@[old(p).token_ptr.pos + 5 + 2 * j].kind == Tokenkind::Num);
                    }
                }
            }
            let (mut stmts, has_return) = func_body(p)?;
            if !has_return {
                let ghost k = stmts@.len();
                stmts.push(new_unary(Nodekind::ReturnNd, new_num(0, None), None));
                proof {
                    assert(stmts@[k as int].kind == Nodekind::ReturnNd);
                }
            }
            let max_offset = match align(p.lvar_max_offset, 8) {
                Some(a) => a,
                None => {
                    return Err(error_at_token(p, ptr, "変数の大きさが扱えません。"));
                },
            };
            proof {
                lemma_aligned(p.lvar_max_offset as nat, 8);
                lemma_locals_wf_grow(p.locals@, p.lvar_max_offset, max_offset);
            }
            p.lvar_max_offset = max_offset;
            let decl = GlobalDecl {
                name: copy_chars(&name),
                typ: None,
                func_typ: Some(ftyp.copy()),
                has_stmts: true,
                token: ptr,
            };
            let ghost gd = decl;
            declare_global(p, decl);
            let n = make_global(name, None, Some(ftyp), args, Some(stmts), Some(max_offset), Some(ptr));
            proof {
                let i = choose|i: int| 0 <= i < p.globals@.len() && p.globals@[i] == gd;
                assert(declared(p.globals@, n));
            }
            n
        } else {
            expect(&mut p.token_ptr, ";")?;
            let decl = GlobalDecl {
                name: copy_chars(&name),
                typ: None,
                func_typ: Some(ftyp.copy()),
                has_stmts: false,
                token: ptr,
            };
            let ghost gd = decl;
            declare_global(p, decl);
            let n = make_global(name, None, Some(ftyp), Vec::new(), None, None, Some(ptr));
            proof {
                let i = choose|i: int| 0 <= i < p.globals@.len() && p.globals@[i] == gd;
                assert(declared(p.globals@, n));
            }
            n
        }
    } else {
        match find_global(p, &name) {
            Some(gi) => {
                let decl_at = p.globals[gi].token;
                let m = if p.globals[gi].typ.is_some() {
                    declared_at_msg(p, decl_at, "\"", &name, "\"は位置[", "]で既にグローバル変数として宣言されています。")
                } else {
                    declared_at_msg(p, decl_at, "\"", &name, "\"は位置[", "]で既に関数として宣言されています。")
                };
                return Err(error_at_token_chars(p, ptr, &m));
            },
            None => {},
        }
        if consume(&mut p.token_ptr, "[") {
            typ = array_suffix(p, typ)?.0;
        }
        expect(&mut p.token_ptr, ";")?;
        let decl = GlobalDecl {
            name: copy_chars(&name),
            typ: Some(typ.copy()),
            func_typ: None,
            has_stmts: false,
            token: ptr,
        };
        let ghost gd = decl;
        declare_global(p, decl);
        let n = make_global(name, Some(typ), None, Vec::new(), None, None, Some(ptr));
        proof {
            let i = choose|i: int| 0 <= i < p.globals@.len() && p.globals@[i] == gd;
            assert(declared(p.globals@, n));
        }
        n
    };
    Ok(glob)
}

/// func-args = arg ("," arg)* | (nothing); arg = type ident?
///
/// The argument variables that are named, and the types of all arguments; the two differ in
/// length when a name is left out (a prototype). At most six arguments are supported.
pub fn func_args(p: &mut Parser) -> (r: Result<(Vec<Node>, TypeList), CompileError>)
    requires
        parser_wf(*old(p)),
    ensures
        adv(*old(p), *final(p)),
        final(p).globals == old(p).globals,
        r matches Ok((args, typs)) ==> list_seq(typs).len() <= 6 && args@.len() <= list_seq(typs).len(),
        r matches Ok((args, typs)) ==> forall|i: int|
            0 <= i < args@.len() ==> (#[trigger] args@[i]).kind == Nodekind::LvarNd && args@[i].is_local && args@[i].typ is Some,
        r matches Ok((args, typs)) ==> (args@.len() == list_seq(typs).len() ==> forall|i: int|
            0 <= i < args@.len() ==> (#[trigger] args@[i]).typ == Some(list_seq(typs)[i])),
        !spec_is_type(old(p).token_ptr) && cur(old(p).token_ptr).kind != Tokenkind::Ident ==> (r matches Ok((args, typs))
            && args@.len() == 0 && list_seq(typs).len() == 0 && *final(p) == *old(p)),
        spec_is_type(old(p).token_ptr) && !is_kind_at(next_of(old(p).token_ptr), Tokenkind::Ident) && !op_at(
            old(p).token_ptr,
            1,
            ","@,
        ) ==> (r matches Ok((args, typs)) && args@.len() == 0 && list_seq(typs) == seq![
            spec_new(spec_type_of(cur_body(old(p).token_ptr)).unwrap()),
        ] && read_one(*old(p), *final(p))),
{
    let mut args: Vec<Node> = Vec::new();
    let mut arg_typs = TypeList::Nil;
    if let Some(typ) = consume_type(&mut p.token_ptr) {
        let mut argc: usize = 1;
        arg_typs = arg_typs.push(typ.copy());
        let ptr = here(p);
        if let Some(name) = consume_ident(&mut p.token_ptr) {
            let v = make_lvar(p, name, Some(ptr), Some(typ), true)?;
            args.push(v);
        }
        loop
            invariant
                spec_is_type(old(p).token_ptr),
                typ == spec_new(spec_type_of(cur_body(old(p).token_ptr)).unwrap()),
                !is_kind_at(next_of(old(p).token_ptr), Tokenkind::Ident) && !op_at(old(p).token_ptr, 1, ","@)
                    ==> read_one(*old(p), *p) && args@.len() == 0 && list_seq(arg_typs) == seq![typ],
                adv(*old(p), *p),
                p.globals == old(p).globals,
                1 <= argc <= 6,
                list_seq(arg_typs).len() == argc,
                forall|i: int|
                    0 <= i < args@.len() ==> (#[trigger] args@[i]).kind == Nodekind::LvarNd && args@[i].is_local
                        && args@[i].typ is Some,
                args@.len() <= argc,
                args@.len() == argc ==> forall|i: int|
                    0 <= i < args@.len() ==> (#[trigger] args@[i]).typ == Some(list_seq(arg_typs)[i]),
            decreases rem(*p),
        {
            if !consume(&mut p.token_ptr, ",") {
                break;
            }
            if argc >= 6 {
                return Err(error_msg("現在7つ以上の引数はサポートされていません。"));
            }
            let typ = expect_type(&mut p.token_ptr)?;
            arg_typs = arg_typs.push(typ.copy());
            let ptr = here(p);
            if let Some(name) = consume_ident(&mut p.token_ptr) {
                let v = make_lvar(p, name, Some(ptr), Some(typ), true)?;
                args.push(v);
            }
            argc = argc + 1;
        }
    } else {
        let ptr = here(p);
        if let Some(_) = consume_ident(&mut p.token_ptr) {
            return Err(error_at_token(p, ptr, "型指定が必要です。"));
        }
    }
    Ok((args, arg_typs))
}

} // verus!
