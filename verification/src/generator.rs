//! The code generator: writes x86-64 assembly (Intel syntax) for typed syntax trees. Every
//! expression leaves its value in `rax`.
use vstd::prelude::*;
use crate::assembly::{
    Asm, arg_reg_size, args_register, asm_write, at_offset, cast, emitted, get_ctrl_count,
    get_func_count, label, label_text, lea, lemma_emitted_refl, mov_from_addr, mov_from_glb,
    mov_from_offset, mov_glb_addr, mov_to_addr, mov_to_offset, op0_text, op1_text, op2_text,
    operate0, operate1, operate1_chars, operate2, operate2_num, operate2_unum, put, put_chars,
    put_i64, put_u64, reg_ax, reg_size, spec_word_ptr, writes, at_addr, spec_cast_code,
    spec_arg_register, spec_reg_ax, spec_mov_op,
};
use crate::node::{InitData, Node, Nodekind, error_nod};
use crate::parser::Literal;
use crate::token::{CompileError, Token, error_msg};
use crate::typecell::{Type, TypeCell, has_bytes, spec_bytes, spec_raw_type};
use crate::utils::{
    chars_of, decimal, digits_value, lemma_decimal_digits, lemma_decimal_injective, push_u64, signed_decimal,
    spec_is_digit,
};

verus! {

broadcast use crate::assembly::lemma_writes_emitted, crate::assembly::lemma_emitted_trans;

/// The read-only data lines of the string literals `lits`: each label, then the text.
pub open spec fn literal_lines(lits: Seq<Literal>) -> Seq<char>
    decreases lits.len(),
{
    if lits.len() == 0 {
        Seq::empty()
    } else {
        literal_lines(lits.drop_last()) + label_text(lits.last().name@) + "\t.string \""@
            + lits.last().body@ + "\"\n"@
    }
}

/// The section of the string literals `lits`: nothing when there are none.
pub open spec fn literals_text(lits: Seq<Literal>) -> Seq<char> {
    if lits.len() == 0 {
        Seq::empty()
    } else {
        "\t.section .rodata\n"@ + literal_lines(lits)
    }
}

/// The code for the trees `trees` from `i` on, in order, after the output `o`.
pub open spec fn trees_spec(trees: Seq<Node>, i: int, o: Out) -> Result<Out, ()>
    decreases trees.len() - i,
{
    if i < 0 || i >= trees.len() {
        Ok(o)
    } else {
        match gen_spec(trees[i], o) {
            Ok(o1) => trees_spec(trees, i + 1, o1),
            Err(x) => Err(x),
        }
    }
}

/// The assembly for a whole program: the string literals, then each tree in order; an error
/// exactly where the code of a tree is refused.
pub fn generate(out: &mut Asm, trees: &Vec<Node>, literals: &Vec<Literal>, tokens: &Vec<Token>) -> (r: Result<(), CompileError>)
    ensures
        emitted(*old(out), *final(out)),
        (old(out).code@ + literals_text(literals@)).is_prefix_of(final(out).code@),
        r is Ok <==> trees_spec(trees@, 0, more(out_of(*old(out)), literals_text(literals@))) is Ok,
        r is Ok ==> trees_spec(trees@, 0, more(out_of(*old(out)), literals_text(literals@))) == Ok::<Out, ()>(
            out_of(*final(out)),
        ),
{
    load_literals(out, literals);
    let ghost after = *out;
    let ghost o = out_of(*out);
    proof {
        lemma_emitted_refl(*out);
        assert(o == more(out_of(*old(out)), literals_text(literals@)));
    }
    let mut i: usize = 0;
    while i < trees.len()
        invariant
            emitted(after, *out),
            writes(*old(out), after, literals_text(literals@)),
            o == out_of(after),
            i <= trees@.len(),
            trees_spec(trees@, 0, o) == trees_spec(trees@, i as int, out_of(*out)),
        decreases trees.len() - i,
    {
        gen_expr(out, &trees[i], tokens)?;
        i = i + 1;
    }
    Ok(())
}

/// Writes the read-only data section holding the string literals, if there are any.
pub fn load_literals(out: &mut Asm, literals: &Vec<Literal>)
    ensures
        writes(*old(out), *final(out), literals_text(literals@)),
{
    if literals.len() == 0 {
        proof {
            assert(out.code@ =~= old(out).code@ + literals_text(literals@));
        }
        return;
    }
    asm_write(out, "\t.section .rodata");
    proof {
        reveal_strlit("\t.section .rodata");
        reveal_strlit("\n");
        reveal_strlit("\t.section .rodata\n");
        assert("\t.section .rodata"@ + "\n"@ =~= "\t.section .rodata\n"@);
        assert(out.code@ =~= old(out).code@ + literal_lines(literals@.subrange(0, 0)) + "\t.section .rodata\n"@);
    }
    let ghost head = *out;
    let mut i: usize = 0;
    while i < literals.len()
        invariant
            i <= literals@.len(),
            writes(head, *out, literal_lines(literals@.subrange(0, i as int))),
            writes(*old(out), head, "\t.section .rodata\n"@),
        decreases literals.len() - i,
    {
        let ghost before = *out;
        label(out, &literals[i].name);
        put(out, "\t.string \"");
        put_chars(out, &literals[i].body);
        put(out, "\"\n");
        proof {
            let pre = literals@.subrange(0, i + 1);
            assert(pre.drop_last() =~= literals@.subrange(0, i as int));
            assert(out.code@ =~= head.code@ + literal_lines(pre));
        }
        i = i + 1;
    }
    proof {
        assert(literals@.subrange(0, literals@.len() as int) =~= literals@);
        reveal_strlit("\t.section .rodata");
        reveal_strlit("\n");
        reveal_strlit("\t.section .rodata\n");
        assert(out.code@ =~= old(out).code@ + literals_text(literals@));
    }
}

/// The error for a syntax tree that lacks what its kind needs.
fn malformed(node: &Node, tokens: &Vec<Token>) -> (e: CompileError)
    ensures
        e.msg@ == "構文木が不正です。"@,
{
    error_nod("構文木が不正です。", node, tokens)
}

/// The size of a value of type `t` as it is held in a register: eight for an array (its
/// address), an error where no register has that size.
fn reg_bytes(t: &TypeCell, node: &Node, tokens: &Vec<Token>) -> (r: Result<usize, CompileError>)
    ensures
        r matches Ok(b) ==> reg_size(b) && spec_reg_bytes(*t) == Some(b),
        r is Err <==> spec_reg_bytes(*t) is None,
{
    if t.typ == Type::Array {
        return Ok(8);
    }
    match t.try_bytes() {
        Some(b) => {
            if b == 1 || b == 2 || b == 4 || b == 8 {
                Ok(b)
            } else {
                Err(error_nod("unsupported register size", node, tokens))
            }
        },
        None => Err(error_nod("unsupported register size", node, tokens)),
    }
}

/// A fresh number for control-flow labels.
fn next_ctrl(out: &mut Asm, node: &Node, tokens: &Vec<Token>) -> (r: Result<u32, CompileError>)
    ensures
        emitted(*old(out), *final(out)),
        final(out).code == old(out).code,
        final(out).func_count == old(out).func_count,
        r is Err <==> old(out).ctrl_count == u32::MAX,
        r matches Ok(c) ==> c == old(out).ctrl_count && final(out).ctrl_count == c + 1,
{
    if out.ctrl_count == u32::MAX {
        proof {
            lemma_emitted_refl(*out);
        }
        return Err(error_nod("制御構文が多すぎます。", node, tokens));
    }
    Ok(get_ctrl_count(out))
}

/// The label `prefix` followed by the number `c`.
fn numbered(prefix: &str, c: u32) -> (r: Vec<char>)
    ensures
        r@ == prefix@ + decimal(c as nat),
{
    let mut v = chars_of(prefix);
    push_u64(&mut v, c as u64);
    v
}

/// The assembly text written so far and the two label counters.
pub struct Out {
    pub code: Seq<char>,
    pub ctrl: u32,
    pub func: u32,
}

/// The text and counters of an output buffer.
pub open spec fn out_of(a: Asm) -> Out {
    Out { code: a.code@, ctrl: a.ctrl_count, func: a.func_count }
}

/// `o` with `t` written after its text.
pub open spec fn more(o: Out, t: Seq<char>) -> Out {
    Out { code: o.code + t, ctrl: o.ctrl, func: o.func }
}

/// How many nodes hang directly below `n` in lists (children, arguments, statements).
pub open spec fn fanout(n: Node) -> nat {
    n.children@.len() + n.args@.len() + match n.stmts {
        Some(s) => s@.len(),
        None => 0,
    }
}

/// The size of a value of type `t` in a register: eight for an array (its address), the size
/// of the type when a register has that size, none otherwise.
pub open spec fn spec_reg_bytes(t: TypeCell) -> Option<usize> {
    if t.typ == Type::Array {
        Some(8)
    } else if has_bytes(t) && (spec_bytes(t) == 1 || spec_bytes(t) == 2 || spec_bytes(t) == 4
        || spec_bytes(t) == 8) {
        Some(spec_bytes(t) as usize)
    } else {
        None
    }
}

/// The conversion of a value of kind `from` to kind `to`, as a line (nothing when none is
/// needed).
pub open spec fn cast_text(from: Type, to: Type) -> Seq<char> {
    let c = spec_cast_code(spec_raw_type(from), spec_raw_type(to));
    if c.len() == 0 {
        Seq::empty()
    } else {
        c + "\n"@
    }
}

/// The code for the operation `k` on `ax` (left) and `di` (right), using `dx` and the
/// sign extension `cq` for division; none for a kind that is no binary operation.
pub open spec fn binop_text(k: Nodekind, ax: Seq<char>, di: Seq<char>, dx: Seq<char>, cq: Seq<char>) -> Option<Seq<char>> {
    let compare = op2_text("cmp"@, ax, di);
    let set = op2_text("movzb"@, "rax"@, "al"@);
    match k {
        Nodekind::AddNd => Some(op2_text("add"@, ax, di)),
        Nodekind::SubNd => Some(op2_text("sub"@, ax, di)),
        Nodekind::MulNd => Some(op2_text("imul"@, ax, di)),
        Nodekind::DivNd => Some(op0_text(cq) + op1_text("idiv"@, di)),
        Nodekind::ModNd => Some(op0_text(cq) + op1_text("idiv"@, di) + op2_text("mov"@, ax, dx)),
        Nodekind::LShiftNd => Some(op2_text("sal"@, ax, "cl"@)),
        Nodekind::RShiftNd => Some(op2_text("sar"@, ax, "cl"@)),
        Nodekind::BitAndNd => Some(op2_text("and"@, ax, di)),
        Nodekind::BitOrNd => Some(op2_text("or"@, ax, di)),
        Nodekind::BitXorNd => Some(op2_text("xor"@, ax, di)),
        Nodekind::EqNd => Some(compare + op1_text("sete"@, "al"@) + set),
        Nodekind::NEqNd => Some(compare + op1_text("setne"@, "al"@) + set),
        Nodekind::LThanNd => Some(compare + op1_text("setl"@, "al"@) + set),
        Nodekind::LEqNd => Some(compare + op1_text("setle"@, "al"@) + set),
        _ => None,
    }
}

/// The store of the value of argument `i` into its slot on the stack.
pub open spec fn store_arg_text(i: int) -> Seq<char> {
    if i == 0 {
        "\tmov QWORD PTR[rsp], rax"@ + "\n"@
    } else {
        "\tmov QWORD PTR[rsp+"@ + decimal((i * 8) as nat) + "], rax\n"@
    }
}

/// The move of argument `i`, of `b` bytes, from the stack into its register.
pub open spec fn arg_move_text(b: usize, i: int) -> Seq<char> {
    op1_text("pop"@, "rax"@) + (if b == 4 {
        op0_text("cdqe"@)
    } else if b < 4 {
        op2_text("movsx"@, "rax"@, "al"@)
    } else {
        Seq::empty()
    }) + (if b < 8 {
        op2_text("mov"@, spec_arg_register(8, i as usize), "0"@)
    } else {
        Seq::empty()
    }) + op2_text("mov"@, spec_arg_register(b, i as usize), spec_reg_ax(b))
}

/// `acc` followed by the moves of the arguments `args` from `i` on into their registers; none
/// when an argument has no register size.
pub open spec fn arg_moves(args: Seq<Node>, i: int, acc: Seq<char>) -> Option<Seq<char>>
    decreases args.len() - i,
{
    if i < 0 || i >= args.len() {
        Some(acc)
    } else {
        match args[i].typ {
            Some(t) => match spec_reg_bytes(t) {
                Some(b) => if b == 1 || b == 4 || b == 8 {
                    arg_moves(args, i + 1, acc + arg_move_text(b, i))
                } else {
                    None
                },
                None => None,
            },
            None => None,
        }
    }
}

/// `acc` followed by the moves of the parameters `args` from `i` on from their registers into
/// their slots; none when a parameter has no slot or no register size.
pub open spec fn param_moves(args: Seq<Node>, i: int, acc: Seq<char>) -> Option<Seq<char>>
    decreases args.len() - i,
{
    if i < 0 || i >= args.len() {
        Some(acc)
    } else {
        match (args[i].offset, args[i].typ) {
            (Some(off), Some(t)) => if has_bytes(t) && (spec_bytes(t) == 1 || spec_bytes(t) == 4
                || spec_bytes(t) == 8) {
                param_moves(
                    args,
                    i + 1,
                    acc + op2_text(
                        "mov"@,
                        spec_word_ptr(spec_bytes(t) as usize) + " "@ + at_offset("rbp"@, off as nat),
                        spec_arg_register(spec_bytes(t) as usize, i as usize),
                    ),
                )
            } else {
                None
            },
            _ => None,
        }
    }
}

/// The line of one item of the initial value of a global; none for a size that no
/// directive has.
pub open spec fn data_line(d: InitData) -> Option<Seq<char>> {
    match d.label {
        Some(l) => if d.size != 8 {
            None
        } else {
            Some(".quad "@ + l@ + (if d.val > 0 {
                "+"@ + signed_decimal(d.val as int)
            } else if d.val < 0 {
                signed_decimal(d.val as int)
            } else {
                Seq::empty()
            }) + "\n"@)
        },
        None => if d.val == 0 {
            Some("\t.zero "@ + decimal(d.size as nat) + "\n"@)
        } else if d.size == 1 {
            Some("\t.byte "@ + signed_decimal(d.val as int) + "\n"@)
        } else if d.size == 2 {
            Some("\t.value "@ + signed_decimal(d.val as int) + "\n"@)
        } else if d.size == 4 {
            Some("\t.long "@ + signed_decimal(d.val as int) + "\n"@)
        } else if d.size == 8 {
            Some("\t.quad "@ + signed_decimal(d.val as int) + "\n"@)
        } else {
            None
        },
    }
}

/// `acc` followed by the lines of the items `v` from `i` on.
pub open spec fn data_text(v: Seq<InitData>, i: int, acc: Seq<char>) -> Option<Seq<char>>
    decreases v.len() - i,
{
    if i < 0 || i >= v.len() {
        Some(acc)
    } else {
        match data_line(v[i]) {
            Some(t) => data_text(v, i + 1, acc + t),
            None => None,
        }
    }
}

/// The start of function `name` with label number `c`: its section and symbol, its labels
/// and the saving of the frame pointer.
pub open spec fn func_head(name: Seq<char>, c: u32) -> Seq<char> {
    "\t.text"@ + "\n"@ + "\t.globl "@ + name + "\n"@ + "\t.type "@ + name + ", @function\n"@ + label_text(name)
        + label_text(".LFB"@ + decimal(c as nat)) + op1_text("push"@, "rbp"@) + op2_text("mov"@, "rbp"@, "rsp"@)
}

/// The end of function `name` with label number `c`.
pub open spec fn func_tail(name: Seq<char>, c: u32) -> Seq<char> {
    label_text(".LFE"@ + decimal(c as nat)) + "\t.size "@ + name + ", .-"@ + name + "\n"@
}

/// The section line(s) of a global variable: `.bss` without an initial value, `.data` with
/// one, after `.data.rel.local` when it holds pointers.
pub open spec fn section_text(init: bool, is_ptr: bool) -> Seq<char> {
    if init {
        (if is_ptr {
            "\t.section .data.rel.local"@ + "\n"@
        } else {
            Seq::empty()
        }) + "\t.data"@ + "\n"@
    } else {
        "\t.bss"@ + "\n"@
    }
}

/// The start of the global variable `name` of `bytes` bytes: its symbol, its section, its
/// type, its size and its label.
pub open spec fn var_head_text(name: Seq<char>, init: bool, is_ptr: bool, bytes: nat) -> Seq<char> {
    "\t.globl "@ + name + "\n"@ + section_text(init, is_ptr) + "\t.type "@ + name + ", @object\n"@
        + "\t.size "@ + name + ", "@ + decimal(bytes) + "\n"@ + label_text(name)
}

/// Whether a global of type `t` holds pointers (itself, or as the items of an array).
pub open spec fn holds_pointers(t: TypeCell) -> bool {
    if t.typ == Type::Array {
        t.ptr_end == Some(Type::Ptr)
    } else {
        t.typ == Type::Ptr
    }
}

/// The code for the global variable `n` named `name`: its section, symbol, size and initial
/// value (zeros when it has none).
pub open spec fn var_spec(n: Node, name: Seq<char>, o: Out) -> Result<Out, ()> {
    match n.typ {
        None => Err(()),
        Some(t) => if !has_bytes(t) {
            Err(())
        } else {
            let bytes = spec_bytes(t);
            let init = n.init_data@.len() > 0;
            let head = var_head_text(name, init, holds_pointers(t), bytes);
            if init {
                match data_text(n.init_data@, 0, Seq::empty()) {
                    Some(d) => Ok(more(o, head + d)),
                    None => Err(()),
                }
            } else {
                Ok(more(o, head + "\t.zero "@ + decimal(bytes) + "\n"@))
            }
        },
    }
}

/// The code for the clearing node `n`: the clearing of the variable below it.
pub open spec fn zero_spec(n: Node, o: Out) -> Result<Out, ()> {
    match n.left {
        None => Err(()),
        Some(l) => match (l.offset, l.typ) {
            (Some(off), Some(t)) => if !has_bytes(t) || spec_bytes(t) > off {
                Err(())
            } else {
                Ok(more(o, clear_text(off as nat, spec_bytes(t))))
            },
            _ => Err(()),
        },
    }
}

/// The code that `gen_expr` writes for `n` after the output `o`, and the counters after it;
/// `Err` where it refuses the tree.
pub open spec fn gen_spec(n: Node, o: Out) -> Result<Out, ()>
    decreases n, fanout(n) + 3,
{
    match n.kind {
        Nodekind::GlobalNd => global_spec(n, o),
        Nodekind::NumNd => match n.val {
            Some(v) => Ok(more(o, num_text(v))),
            None => Err(()),
        },
        Nodekind::LogAndNd | Nodekind::LogOrNd => logic_spec(n, o),
        Nodekind::LogNotNd => match n.left {
            Some(l) => match gen_spec(*l, o) {
                Ok(o1) => Ok(more(
                    o1,
                    op2_text("cmp"@, "rax"@, "0"@) + op1_text("sete"@, "al"@) + op2_text("movzb"@, "rax"@, "al"@),
                )),
                Err(x) => Err(x),
            },
            None => Err(()),
        },
        Nodekind::BitNotNd => match n.left {
            Some(l) => match gen_spec(*l, o) {
                Ok(o1) => Ok(more(o1, op1_text("not"@, "rax"@))),
                Err(x) => Err(x),
            },
            None => Err(()),
        },
        Nodekind::LvarNd => lvar_spec(n, o),
        Nodekind::DerefNd => deref_spec(n, o),
        Nodekind::AddrNd => match n.left {
            Some(l) => addr_spec(*l, o),
            None => Err(()),
        },
        Nodekind::FunCallNd => call_spec(n, o),
        Nodekind::AssignNd => assign_spec(n, o),
        Nodekind::CastNd => cast_spec(n, o),
        Nodekind::CommaNd => match (n.left, n.right) {
            (Some(l), Some(r)) => match gen_spec(*l, o) {
                Ok(o1) => gen_spec(*r, o1),
                Err(x) => Err(x),
            },
            _ => Err(()),
        },
        Nodekind::ReturnNd => match n.left {
            Some(l) => match gen_spec(*l, o) {
                Ok(o1) => Ok(more(
                    o1,
                    op2_text("mov"@, "rsp"@, "rbp"@) + op1_text("pop"@, "rbp"@) + op0_text("ret"@),
                )),
                Err(x) => Err(x),
            },
            None => Err(()),
        },
        Nodekind::IfNd | Nodekind::WhileNd | Nodekind::ForNd => ctrl_spec(n, o),
        Nodekind::BlockNd => children_spec(n, 0, o),
        Nodekind::ZeroClrNd => zero_spec(n, o),
        Nodekind::NopNd => Ok(o),
        _ => binary_spec(n, o),
    }
}

/// The code for the children of the block `n` from `i` on.
pub open spec fn children_spec(n: Node, i: int, o: Out) -> Result<Out, ()>
    decreases n, n.children@.len() - i,
{
    if i < 0 || i >= n.children@.len() {
        Ok(o)
    } else {
        match gen_spec(n.children@[i], o) {
            Ok(o1) => children_spec(n, i + 1, o1),
            Err(x) => Err(x),
        }
    }
}

/// The code for the statements of the function `n` from `i` on.
pub open spec fn stmts_spec(n: Node, i: int, o: Out) -> Result<Out, ()>
    decreases n, match n.stmts {
        Some(s) => s@.len() - i,
        None => 0,
    },
{
    match n.stmts {
        Some(s) => if i < 0 || i >= s@.len() {
            Ok(o)
        } else {
            match gen_spec(s@[i], o) {
                Ok(o1) => stmts_spec(n, i + 1, o1),
                Err(x) => Err(x),
            }
        },
        None => Ok(o),
    }
}

/// The code for the global `n`: a function (nothing for a prototype), or a variable.
pub open spec fn global_spec(n: Node, o: Out) -> Result<Out, ()>
    decreases n, fanout(n) + 2,
{
    match n.name {
        None => Err(()),
        Some(name) => if n.func_typ is Some {
            match n.stmts {
                None => Ok(o),
                Some(_) => func_spec(n, name@, o),
            }
        } else {
            var_spec(n, name@, o)
        },
    }
}

/// The code for the function `n` named `name`: its start, the room for its locals, its
/// parameters moved into their slots, its statements and its end, with the next function
/// label number.
pub open spec fn func_spec(n: Node, name: Seq<char>, o: Out) -> Result<Out, ()>
    decreases n, fanout(n) + 1,
{
    if o.func == u32::MAX {
        Err(())
    } else {
        let c = o.func;
        let o1 = Out { code: o.code + func_head(name, c), ctrl: o.ctrl, func: (c + 1) as u32 };
        match n.max_offset {
            None => Err(()),
            Some(pull) => if n.args@.len() > 6 {
                Err(())
            } else {
                let sub = prologue_sub(pull);
                match param_moves(n.args@, 0, Seq::empty()) {
                    None => Err(()),
                    Some(t) => match stmts_spec(n, 0, more(o1, sub + t)) {
                        Ok(o2) => Ok(more(o2, func_tail(name, c))),
                        Err(x) => Err(x),
                    },
                }
            },
        }
    }
}

/// The value that `&&` (1) and `||` (0) take when no operand has decided it.
pub open spec fn logic_fall(is_and: bool) -> Seq<char> {
    op2_text("mov"@, "rax"@, if is_and { "1"@ } else { "0"@ })
}

/// The code for `&&` and `||`.
pub open spec fn logic_spec(n: Node, o: Out) -> Result<Out, ()>
    decreases n, fanout(n) + 2,
{
    match (n.left, n.right) {
        (Some(l), Some(r)) => if o.ctrl == u32::MAX {
            Err(())
        } else {
            let c = o.ctrl;
            let o1 = Out { code: o.code, ctrl: (c + 1) as u32, func: o.func };
            let is_and = n.kind == Nodekind::LogAndNd;
            let jump = if is_and { "je"@ } else { "jne"@ };
            let fa = ".LLogic.False"@ + decimal(c as nat);
            let ea = ".LLogic.End"@ + decimal(c as nat);
            let test = op2_text("cmp"@, "rax"@, "0"@) + op1_text(jump, fa);
            match gen_spec(*l, o1) {
                Ok(o2) => match gen_spec(*r, more(o2, test)) {
                    Ok(o3) => Ok(more(
                        o3,
                        test + logic_fall(is_and) + op1_text("jmp"@, ea) + label_text(fa) + (if is_and {
                            op2_text("mov"@, "rax"@, "0"@)
                        } else {
                            op2_text("mov"@, "rax"@, "1"@)
                        }) + label_text(ea),
                    )),
                    Err(x) => Err(x),
                },
                Err(x) => Err(x),
            }
        },
        _ => Err(()),
    }
}

/// The code for the variable `n`: its value, or its address for an array.
pub open spec fn lvar_spec(n: Node, o: Out) -> Result<Out, ()>
    decreases n, fanout(n) + 2,
{
    match n.typ {
        None => Err(()),
        Some(t) => if t.typ == Type::Array {
            addr_spec(n, o)
        } else {
            match spec_reg_bytes(t) {
                None => Err(()),
                Some(b) => {
                    let ax = if b < 4 { "eax"@ } else { spec_reg_ax(b) };
                    let load = if n.is_local {
                        match n.offset {
                            Some(off) => Some(op2_text(spec_mov_op(b), ax, spec_word_ptr(b) + " "@ + at_offset("rbp"@, off as nat))),
                            None => None,
                        }
                    } else {
                        match n.name {
                            Some(nm) => Some(op2_text("mov"@, ax, spec_word_ptr(b) + " "@ + nm@ + "[rip]"@)),
                            None => None,
                        }
                    };
                    match load {
                        Some(l) => Ok(more(o, l + (if b == 4 { op0_text("cdqe"@) } else { Seq::empty() }))),
                        None => Err(()),
                    }
                },
            }
        },
    }
}

/// The code for `*e`.
pub open spec fn deref_spec(n: Node, o: Out) -> Result<Out, ()>
    decreases n, fanout(n) + 2,
{
    match n.left {
        None => Err(()),
        Some(l) => if l.kind == Nodekind::AddrNd {
            match l.left {
                Some(ll) => gen_spec(*ll, o),
                None => Err(()),
            }
        } else {
            match gen_spec(*l, o) {
                Err(x) => Err(x),
                Ok(o1) => match n.typ {
                    None => Err(()),
                    Some(t) => if t.typ == Type::Array {
                        Ok(o1)
                    } else {
                        match l.typ {
                            None => Err(()),
                            Some(lt) => match spec_reg_bytes(lt) {
                                Some(b) => Ok(more(o1, op2_text(spec_mov_op(b), "rax"@, spec_word_ptr(b) + " "@ + at_addr("rax"@)))),
                                None => Err(()),
                            },
                        }
                    },
                },
            }
        },
    }
}

/// The code for a call: the arguments, the alignment of the stack, the call.
pub open spec fn call_spec(n: Node, o: Out) -> Result<Out, ()>
    decreases n, fanout(n) + 2,
{
    match push_args_spec(n, o) {
        Err(x) => Err(x),
        Ok(o1) => match n.name {
            Some(nm) => Ok(more(
                o1,
                op2_text("mov"@, "rax"@, "rsp"@) + op2_text("and"@, "rsp"@, "~0x0f"@) + op2_text("sub"@, "rsp"@, "8"@)
                    + op1_text("push"@, "rax"@) + op2_text("mov"@, "rax"@, "0"@) + op1_text("call"@, nm@) + op1_text(
                    "pop"@,
                    "rsp"@,
                ),
            )),
            None => Err(()),
        },
    }
}

/// The code that puts the arguments of the call `n` into their registers.
pub open spec fn push_args_spec(n: Node, o: Out) -> Result<Out, ()>
    decreases n, fanout(n) + 1,
{
    let argc = n.args@.len();
    if argc > 6 {
        Err(())
    } else {
        let o1 = if argc == 0 { o } else { more(o, op2_text("sub"@, "rsp"@, decimal(argc * 8))) };
        match eval_args_spec(n, 0, o1) {
            Err(x) => Err(x),
            Ok(o2) => match arg_moves(n.args@, 0, Seq::empty()) {
                Some(t) => Ok(more(o2, t)),
                None => Err(()),
            },
        }
    }
}

/// The code that evaluates the arguments of the call `n` from `i` on onto the stack.
pub open spec fn eval_args_spec(n: Node, i: int, o: Out) -> Result<Out, ()>
    decreases n, n.args@.len() - i,
{
    if i < 0 || i >= n.args@.len() {
        Ok(o)
    } else {
        match gen_spec(n.args@[i], o) {
            Ok(o1) => eval_args_spec(n, i + 1, more(o1, store_arg_text(i))),
            Err(x) => Err(x),
        }
    }
}

/// The code for `l = r`.
pub open spec fn assign_spec(n: Node, o: Out) -> Result<Out, ()>
    decreases n, fanout(n) + 2,
{
    match (n.left, n.right, n.typ) {
        (Some(l), Some(r), Some(t)) => match addr_spec(*l, o) {
            Err(x) => Err(x),
            Ok(o1) => match gen_spec(*r, more(o1, op1_text("push"@, "rax"@))) {
                Err(x) => Err(x),
                Ok(o2) => match spec_reg_bytes(t) {
                    Some(b) => Ok(more(
                        o2,
                        op1_text("pop"@, "rdi"@) + op2_text("mov"@, spec_word_ptr(b) + " "@ + at_addr("rdi"@), spec_reg_ax(b)),
                    )),
                    None => Err(()),
                },
            },
        },
        _ => Err(()),
    }
}

/// The code for a conversion.
pub open spec fn cast_spec(n: Node, o: Out) -> Result<Out, ()>
    decreases n, fanout(n) + 2,
{
    match (n.left, n.typ) {
        (Some(l), Some(t)) => match l.typ {
            Some(lt) => if lt.typ == Type::Invalid || t.typ == Type::Invalid {
                Err(())
            } else {
                match gen_spec(*l, o) {
                    Ok(o1) => Ok(more(o1, cast_text(lt.typ, t.typ))),
                    Err(x) => Err(x),
                }
            },
            None => Err(()),
        },
        _ => Err(()),
    }
}

/// The code for `if`, `while` and `for`, with labels numbered by the control counter.
pub open spec fn ctrl_spec(n: Node, o: Out) -> Result<Out, ()>
    decreases n, fanout(n) + 2,
{
    match n.branch {
        None => Err(()),
        Some(b) => if o.ctrl == u32::MAX {
            Err(())
        } else {
            let c = o.ctrl;
            let o1 = Out { code: o.code, ctrl: (c + 1) as u32, func: o.func };
            let end = ".LEnd"@ + decimal(c as nat);
            let begin = ".LBegin"@ + decimal(c as nat);
            let test_zero = op2_text("cmp"@, "rax"@, "0"@);
            if n.kind == Nodekind::IfNd {
                match n.enter {
                    None => Err(()),
                    Some(e) => match gen_spec(*e, o1) {
                        Err(x) => Err(x),
                        Ok(o2) => match n.els {
                            Some(els) => {
                                let el = ".LElse"@ + decimal(c as nat);
                                match gen_spec(*b, more(o2, test_zero + op1_text("je"@, el))) {
                                    Err(x) => Err(x),
                                    Ok(o3) => match gen_spec(*els, more(o3, op1_text("jmp"@, end) + label_text(el))) {
                                        Err(x) => Err(x),
                                        Ok(o4) => Ok(more(o4, label_text(end))),
                                    },
                                }
                            },
                            None => match gen_spec(*b, more(o2, test_zero + op1_text("je"@, end))) {
                                Err(x) => Err(x),
                                Ok(o3) => Ok(more(o3, label_text(end))),
                            },
                        },
                    },
                }
            } else if n.kind == Nodekind::WhileNd {
                match n.enter {
                    None => Err(()),
                    Some(e) => match gen_spec(*e, more(o1, label_text(begin))) {
                        Err(x) => Err(x),
                        Ok(o2) => match gen_spec(*b, more(o2, test_zero + op1_text("je"@, end))) {
                            Err(x) => Err(x),
                            Ok(o3) => Ok(more(o3, op1_text("jmp"@, begin) + label_text(end))),
                        },
                    },
                }
            } else {
                let r_init = match n.init {
                    Some(i) => gen_spec(*i, o1),
                    None => Ok(o1),
                };
                match r_init {
                    Err(x) => Err(x),
                    Ok(o2) => {
                        let o3 = more(o2, label_text(begin));
                        let r_enter = match n.enter {
                            Some(e) => match gen_spec(*e, o3) {
                                Ok(o4) => Ok(more(o4, test_zero + op1_text("je"@, end))),
                                Err(x) => Err(x),
                            },
                            None => Ok(o3),
                        };
                        match r_enter {
                            Err(x) => Err(x),
                            Ok(o4) => match gen_spec(*b, o4) {
                                Err(x) => Err(x),
                                Ok(o5) => {
                                    let r_rt = match n.routine {
                                        Some(rt) => gen_spec(*rt, o5),
                                        None => Ok(o5),
                                    };
                                    match r_rt {
                                        Err(x) => Err(x),
                                        Ok(o6) => Ok(more(o6, op1_text("jmp"@, begin) + label_text(end))),
                                    }
                                },
                            },
                        }
                    },
                }
            }
        },
    }
}

/// The code for a binary operation.
pub open spec fn binary_spec(n: Node, o: Out) -> Result<Out, ()>
    decreases n, fanout(n) + 2,
{
    match (n.left, n.right) {
        (Some(l), Some(r)) => match gen_spec(*l, o) {
            Err(x) => Err(x),
            Ok(o1) => match gen_spec(*r, more(o1, op1_text("push"@, "rax"@))) {
                Err(x) => Err(x),
                Ok(o2) => match l.typ {
                    None => Err(()),
                    Some(lt) => {
                        let is_ptr = lt.ptr_end is Some;
                        let ax = if is_ptr { "rax"@ } else { "eax"@ };
                        let di = if is_ptr { "rdi"@ } else { "edi"@ };
                        let dx = if is_ptr { "rdx"@ } else { "edx"@ };
                        let cq = if is_ptr { "cqo"@ } else { "cdq"@ };
                        let mv = if n.kind == Nodekind::LShiftNd || n.kind == Nodekind::RShiftNd {
                            op2_text("mov"@, "rcx"@, "rax"@)
                        } else {
                            op2_text("mov"@, "rdi"@, "rax"@)
                        };
                        match binop_text(n.kind, ax, di, dx, cq) {
                            Some(t) => Ok(more(o2, mv + op1_text("pop"@, "rax"@) + t)),
                            None => Err(()),
                        }
                    },
                },
            },
        },
        _ => Err(()),
    }
}

/// The code that `gen_addr` writes for `n`: the address of a variable, or of what a pointer
/// points to.
pub open spec fn addr_spec(n: Node, o: Out) -> Result<Out, ()>
    decreases n, 0int,
{
    match n.kind {
        Nodekind::LvarNd => if n.is_local {
            match n.offset {
                Some(off) => Ok(more(o, op2_text("lea"@, "rax"@, at_offset("rbp"@, off as nat)))),
                None => Err(()),
            }
        } else {
            match n.name {
                Some(nm) => Ok(more(o, op2_text("lea"@, "rax"@, nm@ + "[rip]"@))),
                None => Err(()),
            }
        },
        Nodekind::DerefNd => match n.left {
            Some(l) => gen_spec(*l, o),
            None => Err(()),
        },
        _ => Err(()),
    }
}

/// Labels made of one prefix and different numbers differ. Every control statement takes a
/// fresh number from the counter (each call gives the next one), so no two statements share
/// a label.
pub proof fn lemma_labels_distinct(prefix: Seq<char>, a: nat, b: nat)
    requires
        a != b,
    ensures
        prefix + decimal(a) != prefix + decimal(b),
{
    lemma_decimal_injective(a, b);
    let x = prefix + decimal(a);
    let y = prefix + decimal(b);
    if x == y {
        assert(x.subrange(prefix.len() as int, x.len() as int) =~= decimal(a));
        assert(y.subrange(prefix.len() as int, y.len() as int) =~= decimal(b));
    }
}

/// The text of `mov rax, val`.
pub open spec fn num_text(val: i32) -> Seq<char> {
    op2_text("mov"@, "rax"@, signed_decimal(val as int))
}

/// Writes code that leaves the value of `node` in `rax`: exactly the code of `gen_spec`, with
/// the counters advanced as it says; an error exactly where `gen_spec` refuses the tree.
#[verifier::rlimit(40)]
pub fn gen_expr(out: &mut Asm, node: &Node, tokens: &Vec<Token>) -> (r: Result<(), CompileError>)
    ensures
        emitted(*old(out), *final(out)),
        r is Ok <==> gen_spec(*node, out_of(*old(out))) is Ok,
        r is Ok ==> gen_spec(*node, out_of(*old(out))) == Ok::<Out, ()>(out_of(*final(out))),
    decreases node, 4int,
{
    proof {
        lemma_emitted_refl(*out);
    }
    let ghost o = out_of(*out);
    match node.kind {
        Nodekind::GlobalNd => gen_global(out, node, tokens),
        Nodekind::NumNd => {
            match node.val {
                Some(v) => {
                    operate2_num(out, "mov", "rax", v as i64);
                    Ok(())
                },
                None => Err(malformed(node, tokens)),
            }
        },
        Nodekind::LogAndNd | Nodekind::LogOrNd => gen_logic(out, node, tokens),
        Nodekind::LogNotNd => {
            match &node.left {
                Some(l) => gen_expr(out, l, tokens)?,
                None => {
                    return Err(malformed(node, tokens));
                },
            }
            let ghost o1 = out_of(*out);
            operate2(out, "cmp", "rax", "0");
            operate1(out, "sete", "al");
            operate2(out, "movzb", "rax", "al");
            proof {
                assert(out.code@ =~= o1.code + (op2_text("cmp"@, "rax"@, "0"@) + op1_text("sete"@, "al"@)
                    + op2_text("movzb"@, "rax"@, "al"@)));
            }
            Ok(())
        },
        Nodekind::BitNotNd => {
            match &node.left {
                Some(l) => gen_expr(out, l, tokens)?,
                None => {
                    return Err(malformed(node, tokens));
                },
            }
            operate1(out, "not", "rax");
            Ok(())
        },
        Nodekind::LvarNd => gen_lvar(out, node, tokens),
        Nodekind::DerefNd => gen_deref(out, node, tokens),
        Nodekind::AddrNd => {
            match &node.left {
                Some(l) => gen_addr(out, l, tokens),
                None => Err(malformed(node, tokens)),
            }
        },
        Nodekind::FunCallNd => gen_call(out, node, tokens),
        Nodekind::AssignNd => gen_assign(out, node, tokens),
        Nodekind::CastNd => gen_cast(out, node, tokens),
        Nodekind::CommaNd => {
            match (&node.left, &node.right) {
                (Some(l), Some(r)) => {
                    gen_expr(out, l, tokens)?;
                    gen_expr(out, r, tokens)
                },
                _ => Err(malformed(node, tokens)),
            }
        },
        Nodekind::ReturnNd => {
            match &node.left {
                Some(l) => gen_expr(out, l, tokens)?,
                None => {
                    return Err(malformed(node, tokens));
                },
            }
            let ghost o1 = out_of(*out);
            operate2(out, "mov", "rsp", "rbp");
            operate1(out, "pop", "rbp");
            operate0(out, "ret");
            proof {
                assert(out.code@ =~= o1.code + (op2_text("mov"@, "rsp"@, "rbp"@) + op1_text("pop"@, "rbp"@)
                    + op0_text("ret"@)));
            }
            Ok(())
        },
        Nodekind::IfNd | Nodekind::WhileNd | Nodekind::ForNd => gen_ctrl(out, node, tokens),
        Nodekind::BlockNd => {
            let mut i: usize = 0;
            while i < node.children.len()
                invariant
                    emitted(*old(out), *out),
                    node.kind == Nodekind::BlockNd,
                    i <= node.children@.len(),
                    o == out_of(*old(out)),
                    children_spec(*node, 0, o) == children_spec(*node, i as int, out_of(*out)),
                decreases node.children.len() - i,
            {
                proof {
                    assert(decreases_to!(node => node.children));
                    assert(decreases_to!(node.children => node.children@));
                    assert(decreases_to!(node.children@ => node.children@[i as int]));
                }
                gen_expr(out, &node.children[i], tokens)?;
                i = i + 1;
            }
            Ok(())
        },
        Nodekind::ZeroClrNd => {
            let l = match &node.left {
                Some(l) => l,
                None => {
                    return Err(malformed(node, tokens));
                },
            };
            let (offset, bytes) = match (l.offset, &l.typ) {
                (Some(o), Some(t)) => match t.try_bytes() {
                    Some(b) => (o, b),
                    None => {
                        return Err(malformed(node, tokens));
                    },
                },
                _ => {
                    return Err(malformed(node, tokens));
                },
            };
            if bytes > offset {
                return Err(malformed(node, tokens));
            }
            zero_clear(out, offset, bytes);
            Ok(())
        },
        Nodekind::NopNd => Ok(()),
        _ => gen_binary(out, node, tokens),
    }
}

/// Writes the code for a global: a function with its prologue, its parameters moved from
/// their registers into their slots and its statements (a prototype writes nothing), or a
/// variable in `.bss`, or in `.data` with its initial value.
#[verifier::rlimit(40)]
fn gen_global(out: &mut Asm, node: &Node, tokens: &Vec<Token>) -> (r: Result<(), CompileError>)
    requires
        node.kind == Nodekind::GlobalNd,
    ensures
        emitted(*old(out), *final(out)),
        r is Ok <==> global_spec(*node, out_of(*old(out))) is Ok,
        r is Ok ==> global_spec(*node, out_of(*old(out))) == Ok::<Out, ()>(out_of(*final(out))),
    decreases node, 3int,
{
    proof {
        lemma_emitted_refl(*out);
    }
    let name = match &node.name {
        Some(n) => n,
        None => {
            return Err(malformed(node, tokens));
        },
    };
    if !node.func_typ.is_some() {
        gen_var(out, node, name, tokens)
    } else if node.stmts.is_none() {
        Ok(())
    } else {
        gen_function(out, node, name, tokens)
    }
}

/// Writes the function `node` named `name`: its start with a fresh label number, the room
/// for its locals, its parameters moved from their registers into their slots, its
/// statements and its end.
#[verifier::rlimit(40)]
fn gen_function(out: &mut Asm, node: &Node, name: &Vec<char>, tokens: &Vec<Token>) -> (r: Result<(), CompileError>)
    requires
        node.stmts is Some,
    ensures
        emitted(*old(out), *final(out)),
        r is Ok <==> func_spec(*node, name@, out_of(*old(out))) is Ok,
        r is Ok ==> func_spec(*node, name@, out_of(*old(out))) == Ok::<Out, ()>(out_of(*final(out))),
    decreases node, 2int,
{
    proof {
        lemma_emitted_refl(*out);
    }
    let ghost o = out_of(*out);
    if out.func_count == u32::MAX {
        return Err(error_nod("関数が多すぎます。", node, tokens));
    }
    let pull = match node.max_offset {
        Some(m) => m,
        None => {
            return Err(malformed(node, tokens));
        },
    };
    if node.args.len() > 6 {
        return Err(error_msg("現在7つ以上の引数はサポートされていません。"));
    }
    let c = func_prologue(out, name, pull);
    let ghost o1 = Out { code: o.code + func_head(name@, c), ctrl: o.ctrl, func: (c + 1) as u32 };
    let ghost sub = prologue_sub(pull);
    gen_params(out, node, tokens)?;
    let ghost t = param_moves(node.args@, 0, Seq::empty()).unwrap();
    proof {
        assert(out_of(*out) == more(o1, sub + t)) by {
            assert(out.code@ =~= o1.code + (sub + t));
        }
    }
    gen_stmts(out, node, tokens)?;
    let ghost o3 = out_of(*out);
    func_epilogue(out, name, c);
    Ok(())
}

/// The room made on the stack for `pull` bytes of locals (nothing when there are none).
pub open spec fn prologue_sub(pull: usize) -> Seq<char> {
    if pull > 0 {
        op2_text("sub"@, "rsp"@, decimal(pull as nat))
    } else {
        Seq::empty()
    }
}

/// Writes the start of function `name` with a fresh function label number, which it gives,
/// and the room for `pull` bytes of locals.
fn func_prologue(out: &mut Asm, name: &Vec<char>, pull: usize) -> (c: u32)
    requires
        old(out).func_count < u32::MAX,
    ensures
        c == old(out).func_count,
        final(out).code@ == old(out).code@ + func_head(name@, c) + prologue_sub(pull),
        final(out).ctrl_count == old(out).ctrl_count,
        final(out).func_count == c + 1,
        emitted(*old(out), *final(out)),
{
    let c = get_func_count(out);
    func_head_code(out, name, c);
    if pull > 0 {
        operate2_unum(out, "sub", "rsp", pull as u64);
    }
    proof {
        assert(out.code@ =~= old(out).code@ + func_head(name@, c) + prologue_sub(pull));
        assert(old(out).code@.is_prefix_of(out.code@)) by {
            assert(old(out).code@ =~= out.code@.subrange(0, old(out).code@.len() as int));
        }
    }
    c
}

/// Writes the end of function `name` with label number `c`.
fn func_epilogue(out: &mut Asm, name: &Vec<char>, c: u32)
    ensures
        writes(*old(out), *final(out), func_tail(name@, c)),
{
    label(out, &numbered(".LFE", c));
    put(out, "\t.size ");
    put_chars(out, name);
    put(out, ", .-");
    put_chars(out, name);
    put(out, "\n");
    proof {
        assert(out.code@ =~= old(out).code@ + func_tail(name@, c));
    }
}

/// Writes the moves of the parameters of function `node` from their registers into their
/// slots on the stack.
#[verifier::rlimit(40)]
fn gen_params(out: &mut Asm, node: &Node, tokens: &Vec<Token>) -> (r: Result<(), CompileError>)
    requires
        node.args@.len() <= 6,
    ensures
        emitted(*old(out), *final(out)),
        r is Ok <==> param_moves(node.args@, 0, Seq::empty()) is Some,
        r is Ok ==> writes(*old(out), *final(out), param_moves(node.args@, 0, Seq::empty()).unwrap()),
{
    proof {
        lemma_emitted_refl(*out);
    }
    let ghost mut acc = Seq::<char>::empty();
    proof {
        assert(out.code@ =~= old(out).code@ + acc);
    }
    let mut ix: usize = 0;
    while ix < node.args.len()
        invariant
            node.args@.len() <= 6,
            ix <= node.args@.len(),
            writes(*old(out), *out, acc),
            param_moves(node.args@, 0, Seq::empty()) == param_moves(node.args@, ix as int, acc),
        decreases node.args.len() - ix,
    {
        let arg = &node.args[ix];
        let (offset, size) = match (arg.offset, &arg.typ) {
            (Some(o), Some(t)) => match t.try_bytes() {
                Some(b) => (o, b),
                None => {
                    return Err(malformed(arg, tokens));
                },
            },
            _ => {
                return Err(malformed(arg, tokens));
            },
        };
        if !(size == 1 || size == 4 || size == 8) {
            return Err(error_nod("unsupported register size", arg, tokens));
        }
        let arg_reg = args_register(size, ix);
        mov_to_offset(out, size, "rbp", arg_reg, offset);
        proof {
            acc = acc + op2_text("mov"@, spec_word_ptr(size) + " "@ + at_offset("rbp"@, offset as nat), arg_reg@);
            assert(out.code@ =~= old(out).code@ + acc);
        }
        ix = ix + 1;
    }
    Ok(())
}

/// Writes the statements of function `node`, in order.
#[verifier::rlimit(40)]
fn gen_stmts(out: &mut Asm, node: &Node, tokens: &Vec<Token>) -> (r: Result<(), CompileError>)
    requires
        node.stmts is Some,
    ensures
        emitted(*old(out), *final(out)),
        r is Ok <==> stmts_spec(*node, 0, out_of(*old(out))) is Ok,
        r is Ok ==> stmts_spec(*node, 0, out_of(*old(out))) == Ok::<Out, ()>(out_of(*final(out))),
    decreases node, 1int,
{
    proof {
        lemma_emitted_refl(*out);
    }
    let ghost o = out_of(*out);
    let stmts = match &node.stmts {
        Some(s) => s,
        None => {
            return Ok(());
        },
    };
    let mut i: usize = 0;
    while i < stmts.len()
        invariant
            emitted(*old(out), *out),
            node.stmts == Some(*stmts),
            i <= stmts@.len(),
            o == out_of(*old(out)),
            stmts_spec(*node, 0, o) == stmts_spec(*node, i as int, out_of(*out)),
        decreases stmts.len() - i,
    {
        proof {
            assert(decreases_to!(node => node.stmts));
            assert(decreases_to!(node.stmts => node.stmts->0));
            assert(decreases_to!(node.stmts->0 => node.stmts->0@));
            assert(decreases_to!(node.stmts->0@ => node.stmts->0@[i as int]));
        }
        gen_expr(out, &stmts[i], tokens)?;
        i = i + 1;
    }
    Ok(())
}

/// Writes the start of function `name` with label number `c`.
fn func_head_code(out: &mut Asm, name: &Vec<char>, c: u32)
    ensures
        writes(*old(out), *final(out), func_head(name@, c)),
{
    asm_write(out, "\t.text");
    put(out, "\t.globl ");
    put_chars(out, name);
    put(out, "\n");
    put(out, "\t.type ");
    put_chars(out, name);
    put(out, ", @function\n");
    label(out, name);
    label(out, &numbered(".LFB", c));
    operate1(out, "push", "rbp");
    operate2(out, "mov", "rbp", "rsp");
    proof {
        assert(out.code@ =~= old(out).code@ + func_head(name@, c));
    }
}

/// Writes the global variable `node` named `name`.
#[verifier::rlimit(40)]
fn gen_var(out: &mut Asm, node: &Node, name: &Vec<char>, tokens: &Vec<Token>) -> (r: Result<(), CompileError>)
    ensures
        emitted(*old(out), *final(out)),
        r is Ok <==> var_spec(*node, name@, out_of(*old(out))) is Ok,
        r is Ok ==> var_spec(*node, name@, out_of(*old(out))) == Ok::<Out, ()>(out_of(*final(out))),
{
    proof {
        lemma_emitted_refl(*out);
    }
    let ghost o = out_of(*out);
    let typ = match &node.typ {
        Some(t) => t,
        None => {
            return Err(malformed(node, tokens));
        },
    };
    let bytes = match typ.try_bytes() {
        Some(b) => b,
        None => {
            return Err(error_nod("変数の大きさが扱えません。", node, tokens));
        },
    };
    let is_initialized = node.init_data.len() > 0;
    let is_ptr = if typ.is_array() {
        match typ.ptr_end {
            Some(t) => t == Type::Ptr,
            None => false,
        }
    } else {
        typ.is_pointer()
    };
    var_head(out, name, is_initialized, is_ptr, bytes);
    let ghost head = var_head_text(name@, is_initialized, is_ptr, bytes as nat);
    if is_initialized {
        let r = data_code(out, node, tokens);
        proof {
            if r is Ok {
                let d = data_text(node.init_data@, 0, Seq::empty()).unwrap();
                assert(out.code@ =~= o.code + (head + d));
            }
        }
        r
    } else {
        put(out, "\t.zero ");
        put_u64(out, bytes as u64);
        put(out, "\n");
        proof {
            assert(out.code@ =~= o.code + (head + "\t.zero "@ + decimal(bytes as nat) + "\n"@));
        }
        Ok(())
    }
}

/// Writes the start of the global variable `name` of `bytes` bytes.
fn var_head(out: &mut Asm, name: &Vec<char>, init: bool, is_ptr: bool, bytes: usize)
    ensures
        writes(*old(out), *final(out), var_head_text(name@, init, is_ptr, bytes as nat)),
{
    name_line(out, "\t.globl ", name, "\n");
    let ghost a = out.code@;
    var_section(out, init, is_ptr);
    let ghost b = out.code@;
    name_line(out, "\t.type ", name, ", @object\n");
    let ghost c = out.code@;
    name_line(out, "\t.size ", name, ", ");
    put_u64(out, bytes as u64);
    put(out, "\n");
    let ghost d = out.code@;
    label(out, name);
    proof {
        assert(d =~= c + ("\t.size "@ + name@ + ", "@ + decimal(bytes as nat) + "\n"@));
        assert(out.code@ =~= old(out).code@ + var_head_text(name@, init, is_ptr, bytes as nat));
    }
}

/// Writes `prefix`, `name` and `suffix`.
fn name_line(out: &mut Asm, prefix: &str, name: &Vec<char>, suffix: &str)
    ensures
        writes(*old(out), *final(out), prefix@ + name@ + suffix@),
{
    put(out, prefix);
    put_chars(out, name);
    put(out, suffix);
    proof {
        assert(out.code@ =~= old(out).code@ + (prefix@ + name@ + suffix@));
    }
}

/// Writes the section line(s) of a global variable.
fn var_section(out: &mut Asm, init: bool, is_ptr: bool)
    ensures
        writes(*old(out), *final(out), section_text(init, is_ptr)),
{
    if init {
        if is_ptr {
            asm_write(out, "\t.section .data.rel.local");
        }
        asm_write(out, "\t.data");
    } else {
        asm_write(out, "\t.bss");
    }
    proof {
        assert(out.code@ =~= old(out).code@ + section_text(init, is_ptr));
    }
}

/// Writes the initial value of the global `node`, item by item.
#[verifier::rlimit(40)]
fn data_code(out: &mut Asm, node: &Node, tokens: &Vec<Token>) -> (r: Result<(), CompileError>)
    ensures
        emitted(*old(out), *final(out)),
        r is Ok <==> data_text(node.init_data@, 0, Seq::empty()) is Some,
        r is Ok ==> writes(*old(out), *final(out), data_text(node.init_data@, 0, Seq::empty()).unwrap()),
{
    proof {
        lemma_emitted_refl(*out);
    }
    let ghost mut acc = Seq::<char>::empty();
    proof {
        assert(out.code@ =~= old(out).code@ + acc);
    }
    let mut i: usize = 0;
    while i < node.init_data.len()
        invariant
            i <= node.init_data@.len(),
            writes(*old(out), *out, acc),
            data_text(node.init_data@, 0, Seq::empty()) == data_text(node.init_data@, i as int, acc),
        decreases node.init_data.len() - i,
    {
        if !data_item(out, &node.init_data[i]) {
            return Err(error_nod("初期化データの大きさが不正です。", node, tokens));
        }
        proof {
            acc = acc + data_line(node.init_data@[i as int]).unwrap();
            assert(out.code@ =~= old(out).code@ + acc);
        }
        i = i + 1;
    }
    Ok(())
}

/// Writes one item of the initial value of a global; false, writing nothing, for a size that
/// no directive has.
fn data_item(out: &mut Asm, data: &InitData) -> (ok: bool)
    ensures
        ok <==> data_line(*data) is Some,
        ok ==> writes(*old(out), *final(out), data_line(*data).unwrap()),
        !ok ==> *final(out) == *old(out),
{
    match &data.label {
        Some(l) => {
            if data.size != 8 {
                return false;
            }
            put(out, ".quad ");
            put_chars(out, l);
            let ghost m = out.code@;
            if data.val > 0 {
                put(out, "+");
                put_i64(out, data.val);
            } else if data.val < 0 {
                put_i64(out, data.val);
            }
            let ghost m2 = out.code@;
            put(out, "\n");
            proof {
                assert(m2 =~= m + (if data.val > 0 {
                    "+"@ + signed_decimal(data.val as int)
                } else if data.val < 0 {
                    signed_decimal(data.val as int)
                } else {
                    Seq::empty()
                }));
                assert(out.code@ =~= old(out).code@ + data_line(*data).unwrap());
            }
            true
        },
        None => {
            if data.val == 0 {
                put(out, "\t.zero ");
                put_u64(out, data.size as u64);
                put(out, "\n");
            } else {
                let directive = if data.size == 1 {
                    "\t.byte "
                } else if data.size == 2 {
                    "\t.value "
                } else if data.size == 4 {
                    "\t.long "
                } else if data.size == 8 {
                    "\t.quad "
                } else {
                    return false;
                };
                put(out, directive);
                put_i64(out, data.val);
                put(out, "\n");
            }
            proof {
                assert(out.code@ =~= old(out).code@ + data_line(*data).unwrap());
            }
            true
        },
    }
}

/// Writes `&&` and `||` with short-circuit evaluation: the right operand is evaluated only
/// when the left one does not decide the result.
#[verifier::rlimit(40)]
fn gen_logic(out: &mut Asm, node: &Node, tokens: &Vec<Token>) -> (r: Result<(), CompileError>)
    requires
        node.kind == Nodekind::LogAndNd || node.kind == Nodekind::LogOrNd,
    ensures
        emitted(*old(out), *final(out)),
        r is Ok <==> logic_spec(*node, out_of(*old(out))) is Ok,
        r is Ok ==> logic_spec(*node, out_of(*old(out))) == Ok::<Out, ()>(out_of(*final(out))),
    decreases node, 2int,
{
    proof {
        lemma_emitted_refl(*out);
    }
    let (l, r) = match (&node.left, &node.right) {
        (Some(l), Some(r)) => (l, r),
        _ => {
            return Err(malformed(node, tokens));
        },
    };
    let c = next_ctrl(out, node, tokens)?;
    let jump_anchor = numbered(".LLogic.False", c);
    let e_anchor = numbered(".LLogic.End", c);
    let is_and = node.kind == Nodekind::LogAndNd;
    let jump = if is_and {
        "je"
    } else {
        "jne"
    };
    gen_expr(out, l, tokens)?;
    let ghost o2 = out_of(*out);
    let ghost test = op2_text("cmp"@, "rax"@, "0"@) + op1_text(jump@, jump_anchor@);
    operate2(out, "cmp", "rax", "0");
    operate1_chars(out, jump, &jump_anchor);
    proof {
        assert(out.code@ =~= o2.code + test);
    }
    gen_expr(out, r, tokens)?;
    let ghost o3 = out_of(*out);
    operate2(out, "cmp", "rax", "0");
    operate1_chars(out, jump, &jump_anchor);
    if is_and {
        operate2(out, "mov", "rax", "1");
    } else {
        operate2(out, "mov", "rax", "0");
    }
    operate1_chars(out, "jmp", &e_anchor);
    label(out, &jump_anchor);
    if is_and {
        operate2(out, "mov", "rax", "0");
    } else {
        operate2(out, "mov", "rax", "1");
    }
    label(out, &e_anchor);
    proof {
        assert(out.code@ =~= o3.code + (test + logic_fall(is_and) + op1_text("jmp"@, e_anchor@)
            + label_text(jump_anchor@) + (if is_and {
            op2_text("mov"@, "rax"@, "0"@)
        } else {
            op2_text("mov"@, "rax"@, "1"@)
        }) + label_text(e_anchor@)));
    }
    Ok(())
}

/// Writes the load of a variable into `rax` (sign-extended to 64 bits when it is an `int`); an
/// array stands for its address.
#[verifier::rlimit(40)]
fn gen_lvar(out: &mut Asm, node: &Node, tokens: &Vec<Token>) -> (r: Result<(), CompileError>)
    requires
        node.kind == Nodekind::LvarNd,
    ensures
        emitted(*old(out), *final(out)),
        r is Ok <==> lvar_spec(*node, out_of(*old(out))) is Ok,
        r is Ok ==> lvar_spec(*node, out_of(*old(out))) == Ok::<Out, ()>(out_of(*final(out))),
    decreases node, 2int,
{
    proof {
        lemma_emitted_refl(*out);
    }
    let ghost o = out_of(*out);
    let typ = match &node.typ {
        Some(t) => t,
        None => {
            return Err(malformed(node, tokens));
        },
    };
    if typ.typ == Type::Array {
        return gen_addr(out, node, tokens);
    }
    let bytes = reg_bytes(typ, node, tokens)?;
    let ax = if bytes < 4 {
        "eax"
    } else {
        reg_ax(bytes)
    };
    let ghost o0 = out.code@;
    if node.is_local {
        match node.offset {
            Some(offset) => mov_from_offset(out, bytes, ax, "rbp", offset),
            None => {
                return Err(malformed(node, tokens));
            },
        }
    } else {
        match &node.name {
            Some(name) => mov_from_glb(out, bytes, ax, name),
            None => {
                return Err(malformed(node, tokens));
            },
        }
    }
    let ghost o1 = out.code@;
    let ghost ld = if node.is_local {
        op2_text(spec_mov_op(bytes), ax@, spec_word_ptr(bytes) + " "@ + at_offset("rbp"@, node.offset.unwrap() as nat))
    } else {
        op2_text("mov"@, ax@, spec_word_ptr(bytes) + " "@ + node.name.unwrap()@ + "[rip]"@)
    };
    assert(o1 == o0 + ld);
    if bytes == 4 {
        operate0(out, "cdqe");
    }
    proof {
        assert(out.code@ =~= o.code + (ld + (if bytes == 4 { op0_text("cdqe"@) } else { Seq::empty() })));
    }
    Ok(())
}

/// Writes `*expr`: the address, then the load of what it points to unless the result is an
/// array (which stands for its address); `*&x` is `x`.
#[verifier::rlimit(40)]
fn gen_deref(out: &mut Asm, node: &Node, tokens: &Vec<Token>) -> (r: Result<(), CompileError>)
    requires
        node.kind == Nodekind::DerefNd,
    ensures
        emitted(*old(out), *final(out)),
        r is Ok <==> deref_spec(*node, out_of(*old(out))) is Ok,
        r is Ok ==> deref_spec(*node, out_of(*old(out))) == Ok::<Out, ()>(out_of(*final(out))),
    decreases node, 2int,
{
    proof {
        lemma_emitted_refl(*out);
    }
    let left = match &node.left {
        Some(l) => l,
        None => {
            return Err(malformed(node, tokens));
        },
    };
    if left.kind == Nodekind::AddrNd {
        match &left.left {
            Some(ll) => {
                proof {
                    assert(decreases_to!(node => node.left));
                    assert(decreases_to!(node.left => node.left->0));
                    assert(decreases_to!(node.left->0 => node.left->0.left));
                }
                gen_expr(out, ll, tokens)
            },
            None => Err(malformed(left, tokens)),
        }
    } else {
        gen_expr(out, left, tokens)?;
        let is_array = match &node.typ {
            Some(t) => t.typ == Type::Array,
            None => {
                return Err(malformed(node, tokens));
            },
        };
        if !is_array {
            let bytes = match &left.typ {
                Some(t) => reg_bytes(t, left, tokens)?,
                None => {
                    return Err(malformed(left, tokens));
                },
            };
            mov_from_addr(out, bytes, "rax", "rax");
        }
        Ok(())
    }
}

/// Writes a call: the arguments into their registers, the stack aligned to 16 bytes, the
/// call, and the stack restored.
#[verifier::rlimit(40)]
fn gen_call(out: &mut Asm, node: &Node, tokens: &Vec<Token>) -> (r: Result<(), CompileError>)
    requires
        node.kind == Nodekind::FunCallNd,
    ensures
        emitted(*old(out), *final(out)),
        r is Ok <==> call_spec(*node, out_of(*old(out))) is Ok,
        r is Ok ==> call_spec(*node, out_of(*old(out))) == Ok::<Out, ()>(out_of(*final(out))),
    decreases node, 2int,
{
    push_args(out, node, tokens)?;
    let ghost o1 = out_of(*out);
    operate2(out, "mov", "rax", "rsp");
    operate2(out, "and", "rsp", "~0x0f");
    operate2(out, "sub", "rsp", "8");
    operate1(out, "push", "rax");
    operate2(out, "mov", "rax", "0");
    match &node.name {
        Some(name) => operate1_chars(out, "call", name),
        None => {
            return Err(malformed(node, tokens));
        },
    }
    operate1(out, "pop", "rsp");
    proof {
        let nm = node.name.unwrap();
        assert(out.code@ =~= o1.code + (op2_text("mov"@, "rax"@, "rsp"@) + op2_text("and"@, "rsp"@, "~0x0f"@)
            + op2_text("sub"@, "rsp"@, "8"@) + op1_text("push"@, "rax"@) + op2_text("mov"@, "rax"@, "0"@)
            + op1_text("call"@, nm@) + op1_text("pop"@, "rsp"@)));
    }
    Ok(())
}

/// Writes `left = right`: the address of `left` is kept on the stack while `right` is
/// evaluated, then the value is stored there.
#[verifier::rlimit(40)]
fn gen_assign(out: &mut Asm, node: &Node, tokens: &Vec<Token>) -> (r: Result<(), CompileError>)
    requires
        node.kind == Nodekind::AssignNd,
    ensures
        emitted(*old(out), *final(out)),
        r is Ok <==> assign_spec(*node, out_of(*old(out))) is Ok,
        r is Ok ==> assign_spec(*node, out_of(*old(out))) == Ok::<Out, ()>(out_of(*final(out))),
    decreases node, 2int,
{
    proof {
        lemma_emitted_refl(*out);
    }
    let (l, r, typ) = match (&node.left, &node.right, &node.typ) {
        (Some(l), Some(r), Some(t)) => (l, r, t),
        _ => {
            return Err(malformed(node, tokens));
        },
    };
    gen_addr(out, l, tokens)?;
    operate1(out, "push", "rax");
    gen_expr(out, r, tokens)?;
    let bytes = reg_bytes(typ, node, tokens)?;
    let ghost o2 = out_of(*out);
    operate1(out, "pop", "rdi");
    mov_to_addr(out, bytes, "rdi", reg_ax(bytes));
    proof {
        assert(out.code@ =~= o2.code + (op1_text("pop"@, "rdi"@) + op2_text(
            "mov"@,
            spec_word_ptr(bytes) + " "@ + at_addr("rdi"@),
            spec_reg_ax(bytes),
        )));
    }
    Ok(())
}

/// Writes a conversion: the operand, then the instruction that converts it, if one is
/// needed.
#[verifier::rlimit(40)]
fn gen_cast(out: &mut Asm, node: &Node, tokens: &Vec<Token>) -> (r: Result<(), CompileError>)
    requires
        node.kind == Nodekind::CastNd,
    ensures
        emitted(*old(out), *final(out)),
        r is Ok <==> cast_spec(*node, out_of(*old(out))) is Ok,
        r is Ok ==> cast_spec(*node, out_of(*old(out))) == Ok::<Out, ()>(out_of(*final(out))),
    decreases node, 2int,
{
    proof {
        lemma_emitted_refl(*out);
    }
    let (l, to) = match (&node.left, &node.typ) {
        (Some(l), Some(t)) => (l, t.typ),
        _ => {
            return Err(malformed(node, tokens));
        },
    };
    let from = match &l.typ {
        Some(t) => t.typ,
        None => {
            return Err(malformed(node, tokens));
        },
    };
    if from == Type::Invalid || to == Type::Invalid {
        return Err(malformed(node, tokens));
    }
    gen_expr(out, l, tokens)?;
    let ghost before = *out;
    cast(out, from, to);
    proof {
        assert(out.code@ =~= before.code@ + cast_text(from, to));
        assert(writes(before, *out, cast_text(from, to)));
    }
    Ok(())
}

/// Writes `if`, `while` and `for` with numbered labels; a condition of 0 is false.
#[verifier::rlimit(40)]
fn gen_ctrl(out: &mut Asm, node: &Node, tokens: &Vec<Token>) -> (r: Result<(), CompileError>)
    requires
        node.kind == Nodekind::IfNd || node.kind == Nodekind::WhileNd || node.kind == Nodekind::ForNd,
    ensures
        emitted(*old(out), *final(out)),
        r is Ok <==> ctrl_spec(*node, out_of(*old(out))) is Ok,
        r is Ok ==> ctrl_spec(*node, out_of(*old(out))) == Ok::<Out, ()>(out_of(*final(out))),
    decreases node, 2int,
{
    proof {
        lemma_emitted_refl(*out);
    }
    let branch = match &node.branch {
        Some(b) => b,
        None => {
            return Err(malformed(node, tokens));
        },
    };
    let c = next_ctrl(out, node, tokens)?;
    let end = numbered(".LEnd", c);
    let ghost test_zero = op2_text("cmp"@, "rax"@, "0"@);
    if node.kind == Nodekind::IfNd {
        match &node.enter {
            Some(e) => gen_expr(out, e, tokens)?,
            None => {
                return Err(malformed(node, tokens));
            },
        }
        let ghost o2 = out_of(*out);
        operate2(out, "cmp", "rax", "0");
        match &node.els {
            Some(els) => {
                let else_label = numbered(".LElse", c);
                operate1_chars(out, "je", &else_label);
                proof {
                    assert(out.code@ =~= o2.code + (test_zero + op1_text("je"@, else_label@)));
                }
                gen_expr(out, branch, tokens)?;
                let ghost o3 = out_of(*out);
                operate1_chars(out, "jmp", &end);
                label(out, &else_label);
                proof {
                    assert(out.code@ =~= o3.code + (op1_text("jmp"@, end@) + label_text(else_label@)));
                }
                gen_expr(out, els, tokens)?;
            },
            None => {
                operate1_chars(out, "je", &end);
                proof {
                    assert(out.code@ =~= o2.code + (test_zero + op1_text("je"@, end@)));
                }
                gen_expr(out, branch, tokens)?;
            },
        }
        label(out, &end);
        Ok(())
    } else if node.kind == Nodekind::WhileNd {
        let begin = numbered(".LBegin", c);
        label(out, &begin);
        match &node.enter {
            Some(e) => gen_expr(out, e, tokens)?,
            None => {
                return Err(malformed(node, tokens));
            },
        }
        let ghost o2 = out_of(*out);
        operate2(out, "cmp", "rax", "0");
        operate1_chars(out, "je", &end);
        proof {
            assert(out.code@ =~= o2.code + (test_zero + op1_text("je"@, end@)));
        }
        gen_expr(out, branch, tokens)?;
        let ghost o3 = out_of(*out);
        operate1_chars(out, "jmp", &begin);
        label(out, &end);
        proof {
            assert(out.code@ =~= o3.code + (op1_text("jmp"@, begin@) + label_text(end@)));
        }
        Ok(())
    } else {
        let begin = numbered(".LBegin", c);
        match &node.init {
            Some(i) => gen_expr(out, i, tokens)?,
            None => {},
        }
        label(out, &begin);
        match &node.enter {
            Some(e) => {
                gen_expr(out, e, tokens)?;
                let ghost o4 = out_of(*out);
                operate2(out, "cmp", "rax", "0");
                operate1_chars(out, "je", &end);
                proof {
                    assert(out.code@ =~= o4.code + (test_zero + op1_text("je"@, end@)));
                }
            },
            None => {},
        }
        gen_expr(out, branch, tokens)?;
        match &node.routine {
            Some(rt) => gen_expr(out, rt, tokens)?,
            None => {},
        }
        let ghost o6 = out_of(*out);
        operate1_chars(out, "jmp", &begin);
        label(out, &end);
        proof {
            assert(out.code@ =~= o6.code + (op1_text("jmp"@, begin@) + label_text(end@)));
        }
        Ok(())
    }
}

/// Writes a binary operation: the left operand is kept on the stack while the right one is
/// evaluated into `rdi` (`rcx` for shifts); pointers use the 64-bit registers, everything
/// else the 32-bit ones. Comparisons leave 0 or 1.
#[verifier::rlimit(40)]
fn gen_binary(out: &mut Asm, node: &Node, tokens: &Vec<Token>) -> (r: Result<(), CompileError>)
    ensures
        emitted(*old(out), *final(out)),
        r is Ok <==> binary_spec(*node, out_of(*old(out))) is Ok,
        r is Ok ==> binary_spec(*node, out_of(*old(out))) == Ok::<Out, ()>(out_of(*final(out))),
    decreases node, 2int,
{
    proof {
        lemma_emitted_refl(*out);
    }
    let (left, right) = match (&node.left, &node.right) {
        (Some(l), Some(r)) => (l, r),
        _ => {
            return Err(malformed(node, tokens));
        },
    };
    gen_expr(out, left, tokens)?;
    let ghost o1 = out_of(*out);
    operate1(out, "push", "rax");
    proof {
        assert(out_of(*out) == more(o1, op1_text("push"@, "rax"@)));
    }
    gen_expr(out, right, tokens)?;
    let is_ptr = match &left.typ {
        Some(t) => t.ptr_end.is_some(),
        None => {
            return Err(malformed(left, tokens));
        },
    };
    let ax = if is_ptr { "rax" } else { "eax" };
    let di = if is_ptr { "rdi" } else { "edi" };
    let dx = if is_ptr { "rdx" } else { "edx" };
    let cq = if is_ptr { "cqo" } else { "cdq" };
    let ghost o2 = out_of(*out);
    let is_shift = node.kind == Nodekind::LShiftNd || node.kind == Nodekind::RShiftNd;
    if is_shift {
        operate2(out, "mov", "rcx", "rax");
    } else {
        operate2(out, "mov", "rdi", "rax");
    }
    operate1(out, "pop", "rax");
    let ghost o3 = out.code@;
    if !binop_code(out, node.kind, ax, di, dx, cq) {
        return Err(error_nod("不正な Nodekind です。", node, tokens));
    }
    proof {
        let t = binop_text(node.kind, ax@, di@, dx@, cq@).unwrap();
        let mv = if is_shift {
            op2_text("mov"@, "rcx"@, "rax"@)
        } else {
            op2_text("mov"@, "rdi"@, "rax"@)
        };
        assert(out.code@ =~= o2.code + (mv + op1_text("pop"@, "rax"@) + t));
    }
    Ok(())
}

/// Writes the operation `kind` on `ax` (left) and `di` (right), using `dx` and the sign
/// extension `cq` for division; false, writing nothing, for a kind that is no binary
/// operation.
fn binop_code(out: &mut Asm, kind: Nodekind, ax: &str, di: &str, dx: &str, cq: &str) -> (ok: bool)
    ensures
        ok <==> binop_text(kind, ax@, di@, dx@, cq@) is Some,
        ok ==> writes(*old(out), *final(out), binop_text(kind, ax@, di@, dx@, cq@).unwrap()),
        !ok ==> *final(out) == *old(out),
{
    match kind {
        Nodekind::AddNd => operate2(out, "add", ax, di),
        Nodekind::SubNd => operate2(out, "sub", ax, di),
        Nodekind::MulNd => operate2(out, "imul", ax, di),
        Nodekind::DivNd => {
            operate0(out, cq);
            operate1(out, "idiv", di);
        },
        Nodekind::ModNd => {
            operate0(out, cq);
            operate1(out, "idiv", di);
            operate2(out, "mov", ax, dx);
        },
        Nodekind::LShiftNd => operate2(out, "sal", ax, "cl"),
        Nodekind::RShiftNd => operate2(out, "sar", ax, "cl"),
        Nodekind::BitAndNd => operate2(out, "and", ax, di),
        Nodekind::BitOrNd => operate2(out, "or", ax, di),
        Nodekind::BitXorNd => operate2(out, "xor", ax, di),
        Nodekind::EqNd => compare_code(out, ax, di, "sete"),
        Nodekind::NEqNd => compare_code(out, ax, di, "setne"),
        Nodekind::LThanNd => compare_code(out, ax, di, "setl"),
        Nodekind::LEqNd => compare_code(out, ax, di, "setle"),
        _ => {
            return false;
        },
    }
    proof {
        assert(out.code@ =~= old(out).code@ + binop_text(kind, ax@, di@, dx@, cq@).unwrap());
    }
    true
}

/// Writes the comparison of `ax` with `di`, leaving 1 in `rax` where `set` holds and 0 where
/// it does not.
fn compare_code(out: &mut Asm, ax: &str, di: &str, set: &str)
    ensures
        writes(
            *old(out),
            *final(out),
            op2_text("cmp"@, ax@, di@) + op1_text(set@, "al"@) + op2_text("movzb"@, "rax"@, "al"@),
        ),
{
    operate2(out, "cmp", ax, di);
    operate1(out, set, "al");
    operate2(out, "movzb", "rax", "al");
    proof {
        assert(out.code@ =~= old(out).code@ + (op2_text("cmp"@, ax@, di@) + op1_text(set@, "al"@) + op2_text(
            "movzb"@,
            "rax"@,
            "al"@,
        )));
    }
}

/// Writes code that leaves the address of `node` in `rax`: exactly the code of `addr_spec`
/// (a variable, or what a pointer points to); an error for anything else.
#[verifier::rlimit(40)]
pub fn gen_addr(out: &mut Asm, node: &Node, tokens: &Vec<Token>) -> (r: Result<(), CompileError>)
    ensures
        emitted(*old(out), *final(out)),
        r is Ok <==> addr_spec(*node, out_of(*old(out))) is Ok,
        r is Ok ==> addr_spec(*node, out_of(*old(out))) == Ok::<Out, ()>(out_of(*final(out))),
    decreases node, 0int,
{
    proof {
        lemma_emitted_refl(*out);
    }
    match node.kind {
        Nodekind::LvarNd => {
            if node.is_local {
                match node.offset {
                    Some(offset) => {
                        lea(out, "rax", "rbp", offset);
                        Ok(())
                    },
                    None => Err(malformed(node, tokens)),
                }
            } else {
                match &node.name {
                    Some(name) => {
                        mov_glb_addr(out, "rax", name);
                        Ok(())
                    },
                    None => Err(malformed(node, tokens)),
                }
            }
        },
        Nodekind::DerefNd => {
            match &node.left {
                Some(l) => gen_expr(out, l, tokens),
                None => Err(malformed(node, tokens)),
            }
        },
        _ => Err(error_nod("左辺値が変数ではありません。", node, tokens)),
    }
}

/// Writes the evaluation of the arguments of a call into the argument registers: all are
/// first evaluated onto the stack (an evaluation may use those registers), then moved into
/// their registers, sign-extended to 64 bits.
#[verifier::rlimit(40)]
fn push_args(out: &mut Asm, node: &Node, tokens: &Vec<Token>) -> (r: Result<(), CompileError>)
    ensures
        emitted(*old(out), *final(out)),
        r is Ok <==> push_args_spec(*node, out_of(*old(out))) is Ok,
        r is Ok ==> push_args_spec(*node, out_of(*old(out))) == Ok::<Out, ()>(out_of(*final(out))),
    decreases node, 1int,
{
    proof {
        lemma_emitted_refl(*out);
    }
    let ghost o = out_of(*out);
    let argc = node.args.len();
    if argc > 6 {
        return Err(error_msg("現在7つ以上の引数はサポートされていません。"));
    }
    if argc != 0 {
        operate2_unum(out, "sub", "rsp", (argc * 8) as u64);
    }
    proof {
        let argc_n = node.args@.len();
        assert(out_of(*out) == (if argc_n == 0 { o } else { more(o, op2_text("sub"@, "rsp"@, decimal(argc_n * 8))) }));
    }
    eval_args(out, node, tokens)?;
    let ghost o2 = out_of(*out);
    move_args(out, node, tokens)?;
    proof {
        assert(out_of(*out) == more(o2, arg_moves(node.args@, 0, Seq::empty()).unwrap()));
    }
    Ok(())
}

/// Writes the evaluation of the arguments of the call `node` onto the stack, in order.
#[verifier::rlimit(40)]
fn eval_args(out: &mut Asm, node: &Node, tokens: &Vec<Token>) -> (r: Result<(), CompileError>)
    requires
        node.args@.len() <= 6,
    ensures
        emitted(*old(out), *final(out)),
        r is Ok <==> eval_args_spec(*node, 0, out_of(*old(out))) is Ok,
        r is Ok ==> eval_args_spec(*node, 0, out_of(*old(out))) == Ok::<Out, ()>(out_of(*final(out))),
    decreases node, 0int,
{
    proof {
        lemma_emitted_refl(*out);
    }
    let ghost o = out_of(*out);
    let mut i: usize = 0;
    while i < node.args.len()
        invariant
            emitted(*old(out), *out),
            node.args@.len() <= 6,
            i <= node.args@.len(),
            o == out_of(*old(out)),
            eval_args_spec(*node, 0, o) == eval_args_spec(*node, i as int, out_of(*out)),
        decreases node.args.len() - i,
    {
        proof {
            assert(decreases_to!(node => node.args));
            assert(decreases_to!(node.args => node.args@));
            assert(decreases_to!(node.args@ => node.args@[i as int]));
        }
        gen_expr(out, &node.args[i], tokens)?;
        store_arg(out, i);
        i = i + 1;
    }
    Ok(())
}

/// Writes the store of the value of argument `i` into its slot on the stack.
fn store_arg(out: &mut Asm, i: usize)
    requires
        i < 6,
    ensures
        writes(*old(out), *final(out), store_arg_text(i as int)),
{
    if i == 0 {
        asm_write(out, "\tmov QWORD PTR[rsp], rax");
    } else {
        put(out, "\tmov QWORD PTR[rsp+");
        put_u64(out, (i * 8) as u64);
        put(out, "], rax\n");
    }
    proof {
        assert(out.code@ =~= old(out).code@ + store_arg_text(i as int));
    }
}

/// Writes the moves of the arguments of the call `node` from the stack into their registers.
#[verifier::rlimit(40)]
fn move_args(out: &mut Asm, node: &Node, tokens: &Vec<Token>) -> (r: Result<(), CompileError>)
    requires
        node.args@.len() <= 6,
    ensures
        emitted(*old(out), *final(out)),
        r is Ok <==> arg_moves(node.args@, 0, Seq::empty()) is Some,
        r is Ok ==> writes(*old(out), *final(out), arg_moves(node.args@, 0, Seq::empty()).unwrap()),
{
    proof {
        lemma_emitted_refl(*out);
    }
    let ghost mut acc = Seq::<char>::empty();
    proof {
        assert(out.code@ =~= old(out).code@ + acc);
    }
    let mut i: usize = 0;
    while i < node.args.len()
        invariant
            node.args@.len() <= 6,
            i <= node.args@.len(),
            writes(*old(out), *out, acc),
            arg_moves(node.args@, 0, Seq::empty()) == arg_moves(node.args@, i as int, acc),
        decreases node.args.len() - i,
    {
        let arg = &node.args[i];
        let bytes = match &arg.typ {
            Some(t) => reg_bytes(t, arg, tokens)?,
            None => {
                return Err(malformed(arg, tokens));
            },
        };
        if !(bytes == 1 || bytes == 4 || bytes == 8) {
            return Err(error_nod("unsupported register size", arg, tokens));
        }
        arg_move_code(out, bytes, i);
        proof {
            acc = acc + arg_move_text(bytes, i as int);
            assert(out.code@ =~= old(out).code@ + acc);
        }
        i = i + 1;
    }
    Ok(())
}

/// Writes the move of argument `i`, of `bytes` bytes, from the stack into its register,
/// sign-extended to 64 bits.
fn arg_move_code(out: &mut Asm, bytes: usize, i: usize)
    requires
        bytes == 1 || bytes == 4 || bytes == 8,
        i < 6,
    ensures
        writes(*old(out), *final(out), arg_move_text(bytes, i as int)),
{
    let arg_reg = args_register(bytes, i);
    let arg_reg_r = args_register(8, i);
    let ax = reg_ax(bytes);
    operate1(out, "pop", "rax");
    let ghost a = out.code@;
    if bytes == 4 {
        operate0(out, "cdqe");
    } else if bytes < 4 {
        operate2(out, "movsx", "rax", "al");
    }
    let ghost b = out.code@;
    if bytes < 8 {
        operate2(out, "mov", arg_reg_r, "0");
    }
    let ghost c = out.code@;
    operate2(out, "mov", arg_reg, ax);
    proof {
        assert(b =~= a + (if bytes == 4 {
            op0_text("cdqe"@)
        } else if bytes < 4 {
            op2_text("movsx"@, "rax"@, "al"@)
        } else {
            Seq::empty()
        }));
        assert(c =~= b + (if bytes < 8 {
            op2_text("mov"@, spec_arg_register(8, i), "0"@)
        } else {
            Seq::empty()
        }));
        assert(out.code@ =~= old(out).code@ + arg_move_text(bytes, i as int));
    }
}

/// Writes the clearing of the `bytes` bytes from `rbp-offset` upwards: `rep stosq` for large
/// areas (128 bytes or more), else quadword stores, then the remaining 4, 2 and 1 bytes.
pub fn zero_clear(out: &mut Asm, offset: usize, bytes: usize)
    requires
        bytes <= offset,
    ensures
        writes(*old(out), *final(out), clear_text(offset as nat, bytes as nat)),
{
    let rest_offset = zero_quads(out, offset, bytes);
    let ghost mid = *out;
    zero_tail(out, rest_offset, bytes % 8);
    proof {
        assert(out.code@ =~= old(out).code@ + clear_text(offset as nat, bytes as nat));
    }
}

/// Writes the clearing of the whole quadwords of the `bytes` bytes from `rbp-offset`
/// upwards; gives the offset of what is left.
fn zero_quads(out: &mut Asm, offset: usize, bytes: usize) -> (r: usize)
    requires
        bytes <= offset,
    ensures
        r == offset - 8 * (bytes / 8),
        writes(
            *old(out),
            *final(out),
            if bytes >= 128 {
                fill_text(offset as nat, (bytes / 8) as nat)
            } else {
                quad_text(offset as nat, (bytes / 8) as nat)
            },
        ),
{
    if bytes >= 128 {
        lea(out, "rdi", "rbp", offset);
        operate2(out, "mov", "rax", "0");
        operate2_unum(out, "mov", "rcx", (bytes / 8) as u64);
        operate1(out, "rep", "stosq");
        operate2(out, "mov", "eax", "0");
        proof {
            assert(out.code@ =~= old(out).code@ + fill_text(offset as nat, (bytes / 8) as nat));
        }
        offset - (bytes / 8) * 8
    } else {
        let mut cur = offset;
        let mut k: usize = 0;
        proof {
            assert(out.code@ =~= old(out).code@ + quad_text(offset as nat, 0));
        }
        while k < bytes / 8
            invariant
                k <= bytes / 8,
                bytes <= offset,
                cur == offset - 8 * k,
                writes(*old(out), *out, quad_text(offset as nat, k as nat)),
            decreases bytes / 8 - k,
        {
            mov_to_offset(out, 8, "rbp", "0", cur);
            proof {
                lemma_quad_text_step(offset as nat, k as nat);
                assert(out.code@ =~= old(out).code@ + quad_text(offset as nat, (k + 1) as nat));
            }
            cur = cur - 8;
            k = k + 1;
        }
        cur
    }
}

/// Writes the clearing of the last `rest` (below eight) bytes from `rbp-offset` upwards.
fn zero_tail(out: &mut Asm, offset: usize, rest: usize)
    requires
        rest < 8,
        rest <= offset,
    ensures
        writes(*old(out), *final(out), tail_text(offset as nat, rest as nat)),
{
    let mut cur = offset;
    if rest / 4 == 1 {
        mov_to_offset(out, 4, "rbp", "0", cur);
        cur = cur - 4;
    }
    let ghost a = *out;
    if (rest % 4) / 2 == 1 {
        mov_to_offset(out, 2, "rbp", "0", cur);
        cur = cur - 2;
    }
    let ghost b = *out;
    if rest % 2 == 1 {
        mov_to_offset(out, 1, "rbp", "0", cur);
    }
    proof {
        assert(out.code@ =~= old(out).code@ + tail_text(offset as nat, rest as nat));
    }
}

/// The store of zero into the `size` bytes at `[rbp-offset]`.
pub open spec fn zero_store(size: usize, offset: nat) -> Seq<char> {
    op2_text("mov"@, spec_word_ptr(size) + " "@ + at_offset("rbp"@, offset), "0"@)
}

/// `n` quadword stores of zero from `[rbp-offset]` upwards.
pub open spec fn quad_text(offset: nat, n: nat) -> Seq<char>
    decreases n,
{
    if n == 0 {
        Seq::empty()
    } else {
        quad_text(offset, (n - 1) as nat) + zero_store(8, (offset - 8 * (n - 1)) as nat)
    }
}

/// The clearing of `quads` quadwords from `[rbp-offset]` upwards with `rep stosq`.
pub open spec fn fill_text(offset: nat, quads: nat) -> Seq<char> {
    op2_text("lea"@, "rdi"@, at_offset("rbp"@, offset)) + op2_text("mov"@, "rax"@, "0"@)
        + op2_text("mov"@, "rcx"@, decimal(quads)) + op1_text("rep"@, "stosq"@) + op2_text(
        "mov"@,
        "eax"@,
        "0"@,
    )
}

/// The stores of zero into the last `rest` (below eight) bytes at `[rbp-offset]` upwards:
/// four, then two, then one byte, as needed.
pub open spec fn tail_text(offset: nat, rest: nat) -> Seq<char> {
    let four = if rest / 4 == 1 { zero_store(4, offset) } else { Seq::empty() };
    let o2 = if rest / 4 == 1 { (offset - 4) as nat } else { offset };
    let two = if (rest % 4) / 2 == 1 { zero_store(2, o2) } else { Seq::empty() };
    let o1 = if (rest % 4) / 2 == 1 { (o2 - 2) as nat } else { o2 };
    let one = if rest % 2 == 1 { zero_store(1, o1) } else { Seq::empty() };
    four + two + one
}

/// The clearing of the `bytes` bytes from `[rbp-offset]` upwards.
pub open spec fn clear_text(offset: nat, bytes: nat) -> Seq<char> {
    let quads = bytes / 8;
    let head = if bytes >= 128 { fill_text(offset, quads) } else { quad_text(offset, quads) };
    head + tail_text((offset - 8 * quads) as nat, bytes % 8)
}

proof fn lemma_quad_text_step(offset: nat, k: nat)
    ensures
        quad_text(offset, k + 1) == quad_text(offset, k) + zero_store(8, (offset - 8 * k) as nat),
{
}

/// One step of the clearing code: `rep stosq` over `quads` quadwords from `[rbp-offset]`, or a
/// store of zero into the `size` bytes at `[rbp-offset]`.
pub enum ClearStep {
    Fill { offset: nat, quads: nat },
    Store { size: usize, offset: nat },
}

/// Where a step starts, below `rbp`.
pub open spec fn step_offset(s: ClearStep) -> nat {
    match s {
        ClearStep::Fill { offset, .. } => offset,
        ClearStep::Store { offset, .. } => offset,
    }
}

/// How many bytes a step clears.
pub open spec fn step_len(s: ClearStep) -> nat {
    match s {
        ClearStep::Fill { quads, .. } => 8 * quads,
        ClearStep::Store { size, .. } => size as nat,
    }
}

/// The code of a step.
pub open spec fn step_text(s: ClearStep) -> Seq<char> {
    match s {
        ClearStep::Fill { offset, quads } => fill_text(offset, quads),
        ClearStep::Store { size, offset } => zero_store(size, offset),
    }
}

/// The code of the steps of `plan`, in order.
pub open spec fn plan_text(plan: Seq<ClearStep>) -> Seq<char>
    decreases plan.len(),
{
    if plan.len() == 0 {
        Seq::empty()
    } else {
        plan_text(plan.drop_last()) + step_text(plan.last())
    }
}

/// `n` quadword stores from `[rbp-offset]` upwards.
pub open spec fn quad_plan(offset: nat, n: nat) -> Seq<ClearStep>
    decreases n,
{
    if n == 0 {
        Seq::empty()
    } else {
        quad_plan(offset, (n - 1) as nat).push(ClearStep::Store { size: 8, offset: (offset - 8 * (n - 1)) as nat })
    }
}

/// The stores for the last `rest` (below eight) bytes from `[rbp-offset]` upwards.
pub open spec fn tail_plan(offset: nat, rest: nat) -> Seq<ClearStep> {
    let four = if rest / 4 == 1 { seq![ClearStep::Store { size: 4, offset }] } else { Seq::empty() };
    let o2 = if rest / 4 == 1 { (offset - 4) as nat } else { offset };
    let two = if (rest % 4) / 2 == 1 { seq![ClearStep::Store { size: 2, offset: o2 }] } else { Seq::empty() };
    let o1 = if (rest % 4) / 2 == 1 { (o2 - 2) as nat } else { o2 };
    let one = if rest % 2 == 1 { seq![ClearStep::Store { size: 1, offset: o1 }] } else { Seq::empty() };
    four + two + one
}

/// The steps that clear the `bytes` bytes from `[rbp-offset]` upwards.
pub open spec fn clear_plan(offset: nat, bytes: nat) -> Seq<ClearStep> {
    let quads = bytes / 8;
    let head = if bytes >= 128 {
        seq![ClearStep::Fill { offset, quads }]
    } else {
        quad_plan(offset, quads)
    };
    head + tail_plan((offset - 8 * quads) as nat, bytes % 8)
}

/// The steps of `plan` clear, without gap or overlap, the `bytes` bytes from `[rbp-offset]`
/// upwards, each step at least one byte.
pub open spec fn covers(plan: Seq<ClearStep>, offset: int, bytes: int) -> bool
    decreases plan.len(),
{
    if plan.len() == 0 {
        bytes == 0
    } else {
        let last = plan.last();
        &&& 0 < step_len(last) <= bytes
        &&& step_offset(last) == offset - (bytes - step_len(last))
        &&& covers(plan.drop_last(), offset, bytes - step_len(last))
    }
}

proof fn lemma_plan_text_append(a: Seq<ClearStep>, b: Seq<ClearStep>)
    ensures
        plan_text(a + b) == plan_text(a) + plan_text(b),
    decreases b.len(),
{
    if b.len() == 0 {
        assert(a + b =~= a);
        assert(plan_text(a) + plan_text(b) =~= plan_text(a));
    } else {
        assert((a + b).drop_last() =~= a + b.drop_last());
        lemma_plan_text_append(a, b.drop_last());
        assert(plan_text(a + b) =~= plan_text(a) + plan_text(b));
    }
}

proof fn lemma_covers_append(a: Seq<ClearStep>, b: Seq<ClearStep>, offset: int, x: int, y: int)
    requires
        covers(a, offset, x),
        covers(b, offset - x, y),
    ensures
        covers(a + b, offset, x + y),
    decreases b.len(),
{
    if b.len() == 0 {
        assert(a + b =~= a);
    } else {
        let l = step_len(b.last()) as int;
        assert((a + b).drop_last() =~= a + b.drop_last());
        lemma_covers_append(a, b.drop_last(), offset, x, y - l);
        assert((a + b).last() == b.last());
    }
}

proof fn lemma_quad_plan(offset: nat, n: nat)
    requires
        8 * n <= offset,
    ensures
        plan_text(quad_plan(offset, n)) == quad_text(offset, n),
        covers(quad_plan(offset, n), offset as int, (8 * n) as int),
    decreases n,
{
    if n > 0 {
        lemma_quad_plan(offset, (n - 1) as nat);
        let p = quad_plan(offset, n);
        assert(p.drop_last() =~= quad_plan(offset, (n - 1) as nat));
    }
}

proof fn lemma_tail_plan(offset: nat, rest: nat)
    requires
        rest < 8,
        rest <= offset,
    ensures
        plan_text(tail_plan(offset, rest)) == tail_text(offset, rest),
        covers(tail_plan(offset, rest), offset as int, rest as int),
{
    let four: Seq<ClearStep> = if rest / 4 == 1 { seq![ClearStep::Store { size: 4, offset }] } else { Seq::empty() };
    let o2 = if rest / 4 == 1 { (offset - 4) as nat } else { offset };
    let two: Seq<ClearStep> = if (rest % 4) / 2 == 1 { seq![ClearStep::Store { size: 2, offset: o2 }] } else { Seq::empty() };
    let o1 = if (rest % 4) / 2 == 1 { (o2 - 2) as nat } else { o2 };
    let one: Seq<ClearStep> = if rest % 2 == 1 { seq![ClearStep::Store { size: 1, offset: o1 }] } else { Seq::empty() };
    let n4: int = if rest / 4 == 1 { 4 } else { 0 };
    let n2: int = if (rest % 4) / 2 == 1 { 2 } else { 0 };
    let n1: int = if rest % 2 == 1 { 1 } else { 0 };
    assert(n4 + n2 + n1 == rest);
    reveal_with_fuel(covers, 2);
    reveal_with_fuel(plan_text, 2);
    lemma_plan_text_append(four, two);
    lemma_plan_text_append(four + two, one);
    assert(covers(four, offset as int, n4)) by {
        if rest / 4 == 1 {
            assert(four.drop_last() =~= Seq::<ClearStep>::empty());
        }
    }
    assert(covers(two, offset - n4, n2)) by {
        if (rest % 4) / 2 == 1 {
            assert(two.drop_last() =~= Seq::<ClearStep>::empty());
        }
    }
    assert(covers(one, offset - n4 - n2, n1)) by {
        if rest % 2 == 1 {
            assert(one.drop_last() =~= Seq::<ClearStep>::empty());
        }
    }
    lemma_covers_append(four, two, offset as int, n4, n2);
    lemma_covers_append(four + two, one, offset as int, n4 + n2, n1);
    if rest / 4 == 1 {
        assert(plan_text(four) =~= zero_store(4, offset)) by {
            assert(four.drop_last() =~= Seq::<ClearStep>::empty());
        }
    } else {
        assert(plan_text(four) =~= Seq::<char>::empty());
    }
    if (rest % 4) / 2 == 1 {
        assert(plan_text(two) =~= zero_store(2, o2)) by {
            assert(two.drop_last() =~= Seq::<ClearStep>::empty());
        }
    } else {
        assert(plan_text(two) =~= Seq::<char>::empty());
    }
    if rest % 2 == 1 {
        assert(plan_text(one) =~= zero_store(1, o1)) by {
            assert(one.drop_last() =~= Seq::<ClearStep>::empty());
        }
    } else {
        assert(plan_text(one) =~= Seq::<char>::empty());
    }
}

/// The code that `zero_clear` writes is the code of its plan, and the plan clears exactly the
/// `bytes` bytes from `[rbp-offset]` upwards: every byte once, in order, nothing else.
pub proof fn lemma_zero_clear_covers(offset: nat, bytes: nat)
    requires
        bytes <= offset,
    ensures
        plan_text(clear_plan(offset, bytes)) == clear_text(offset, bytes),
        covers(clear_plan(offset, bytes), offset as int, bytes as int),
{
    let quads = bytes / 8;
    let rest = bytes % 8;
    assert(8 * quads + rest == bytes);
    let tail = tail_plan((offset - 8 * quads) as nat, rest);
    lemma_tail_plan((offset - 8 * quads) as nat, rest);
    reveal_with_fuel(covers, 2);
    reveal_with_fuel(plan_text, 2);
    if bytes >= 128 {
        let head = seq![ClearStep::Fill { offset, quads }];
        assert(head.drop_last() =~= Seq::<ClearStep>::empty());
        assert(plan_text(head) =~= fill_text(offset, quads));
        assert(covers(head, offset as int, (8 * quads) as int));
        lemma_plan_text_append(head, tail);
        lemma_covers_append(head, tail, offset as int, (8 * quads) as int, rest as int);
    } else {
        let head = quad_plan(offset, quads);
        lemma_quad_plan(offset, quads);
        lemma_plan_text_append(head, tail);
        lemma_covers_append(head, tail, offset as int, (8 * quads) as int, rest as int);
    }
}

/// Whether `line` begins with `p`.
pub open spec fn starts_with(line: Seq<char>, p: Seq<char>) -> bool {
    p.len() <= line.len() && line.subrange(0, p.len() as int) == p
}

/// Whether, after `cmp l, r` on signed values, the x86 instruction `setcc` with mnemonic `mn`
/// sets its byte to 1 (it sets it to 0 otherwise).
pub open spec fn setcc_holds(mn: Seq<char>, l: int, r: int) -> bool {
    if mn == "sete"@ {
        l == r
    } else if mn == "setne"@ {
        l != r
    } else if mn == "setl"@ {
        l < r
    } else if mn == "setle"@ {
        l <= r
    } else if mn == "setg"@ {
        l > r
    } else if mn == "setge"@ {
        l >= r
    } else {
        false
    }
}

/// Whether the comparison `k` of C holds of `l` and `r`; `k` is `==`, `!=`, `<` or `<=`.
pub open spec fn c_compare(k: Nodekind, l: int, r: int) -> bool {
    match k {
        Nodekind::EqNd => l == r,
        Nodekind::NEqNd => l != r,
        Nodekind::LThanNd => l < r,
        _ => l <= r,
    }
}

/// The kinds of comparison node.
pub open spec fn compare_kind(k: Nodekind) -> bool {
    k == Nodekind::EqNd || k == Nodekind::NEqNd || k == Nodekind::LThanNd || k == Nodekind::LEqNd
}

/// The code `cmp ax, di`, then `mn al`, then `movzb rax, al`: `rax` becomes 1 where `mn` holds
/// of the left value `ax` and the right value `di`, and 0 elsewhere.
pub open spec fn set_on_compare(ax: Seq<char>, di: Seq<char>, mn: Seq<char>) -> Seq<char> {
    op2_text("cmp"@, ax, di) + op1_text(mn, "al"@) + op2_text("movzb"@, "rax"@, "al"@)
}

/// A comparison compares its left operand (in `ax`) with its right one (in `di`) and leaves
/// in `rax` 1 exactly where the comparison of C holds of the two values, and 0 elsewhere:
/// `<=` gives 1 on equal values, `<` gives 0 there.
pub proof fn lemma_comparisons_compute_their_relation(k: Nodekind, ax: Seq<char>, di: Seq<char>, dx: Seq<char>, cq: Seq<char>)
    requires
        compare_kind(k),
    ensures
        exists|mn: Seq<char>|
            binop_text(k, ax, di, dx, cq) == Some(#[trigger] set_on_compare(ax, di, mn)) && forall|l: int, r: int|
                setcc_holds(mn, l, r) == c_compare(k, l, r),
{
    reveal_strlit("sete");
    reveal_strlit("setne");
    reveal_strlit("setl");
    reveal_strlit("setle");
    assert("sete"@.len() == 4 && "setl"@.len() == 4 && "setne"@.len() == 5 && "setle"@.len() == 5);
    assert("sete"@[3] != "setl"@[3] && "setne"@[3] != "setle"@[3]);
    assert("sete"@ != "setl"@ && "setne"@ != "setle"@);
    let mn = match k {
        Nodekind::EqNd => "sete"@,
        Nodekind::NEqNd => "setne"@,
        Nodekind::LThanNd => "setl"@,
        _ => "setle"@,
    };
    assert(binop_text(k, ax, di, dx, cq) == Some(set_on_compare(ax, di, mn)));
    assert forall|l: int, r: int| setcc_holds(mn, l, r) == c_compare(k, l, r) by {}
}

/// The number of bytes of data that the assembler directive line `line` lays down.
pub open spec fn directive_bytes(line: Seq<char>) -> Option<int> {
    if starts_with(line, "\t.byte "@) {
        Some(1)
    } else if starts_with(line, "\t.value "@) {
        Some(2)
    } else if starts_with(line, "\t.long "@) {
        Some(4)
    } else if starts_with(line, "\t.quad "@) || starts_with(line, ".quad "@) {
        Some(8)
    } else if starts_with(line, "\t.zero "@) && line.len() > 8 && line.last() == '\n' {
        Some(digits_value(line.subrange(7, line.len() - 1)) as int)
    } else {
        None
    }
}

/// The data line written for an item of the initial value of a global lays down exactly as
/// many bytes as the item has, so that the data of a global fills its size and each item starts
/// where the one before it ends.
pub proof fn lemma_data_lines_fill_their_size(d: InitData)
    requires
        data_line(d) is Some,
    ensures
        directive_bytes(data_line(d).unwrap()) == Some(d.size as int),
{
    reveal_strlit("\t.byte ");
    reveal_strlit("\t.value ");
    reveal_strlit("\t.long ");
    reveal_strlit("\t.quad ");
    reveal_strlit(".quad ");
    reveal_strlit("\t.zero ");
    reveal_strlit("\n");
    let line = data_line(d).unwrap();
    assert("\t.byte "@[2] == 'b' && "\t.value "@[2] == 'v' && "\t.long "@[2] == 'l' && "\t.quad "@[2] == 'q'
        && "\t.zero "@[2] == 'z' && ".quad "@[0] == '.' && "\t.byte "@[0] == '\t');
    assert("\t.byte "@.len() == 7 && "\t.value "@.len() == 8 && "\t.long "@.len() == 7 && "\t.quad "@.len() == 7
        && "\t.zero "@.len() == 7 && ".quad "@.len() == 6);
    match d.label {
        Some(l) => {
            assert(line.subrange(0, 6) =~= ".quad "@);
            assert(line[0] == '.');
        },
        None => {
            if d.val == 0 {
                lemma_decimal_digits(d.size as nat);
                assert(line.subrange(0, 7) =~= "\t.zero "@);
                assert(line[2] == 'z' && line[0] == '\t');
                assert(line.subrange(7, line.len() - 1) =~= decimal(d.size as nat));
            } else if d.size == 1 {
                assert(line.subrange(0, 7) =~= "\t.byte "@);
                assert(line[2] == 'b');
            } else if d.size == 2 {
                assert(line.subrange(0, 8) =~= "\t.value "@);
                assert(line[2] == 'v');
            } else if d.size == 4 {
                assert(line.subrange(0, 7) =~= "\t.long "@);
                assert(line[2] == 'l');
            } else {
                assert(line.subrange(0, 7) =~= "\t.quad "@);
                assert(line[2] == 'q');
            }
        },
    }
}

/// The offset from `rsp` of the stack slot that the store line `line` writes `rax` to: `[rsp]`
/// is offset 0, `[rsp+N]` offset N.
pub open spec fn store_slot(line: Seq<char>) -> Option<int> {
    let p = "\tmov QWORD PTR[rsp+"@;
    let q = "], rax\n"@;
    if line == "\tmov QWORD PTR[rsp], rax\n"@ {
        Some(0)
    } else if p.len() + q.len() < line.len() && starts_with(line, p) && line.subrange(line.len() - q.len(), line.len() as int)
        == q && forall|k: int| p.len() <= k < line.len() - q.len() ==> spec_is_digit(#[trigger] line[k]) {
        Some(digits_value(line.subrange(p.len() as int, line.len() - q.len())) as int)
    } else {
        None
    }
}

/// The value of argument `i` of a call is stored `8 * i` bytes above `rsp`: each argument has a
/// slot of its own, in order, and the pops that follow read them back first to last.
pub proof fn lemma_arguments_have_their_own_slots(i: int)
    requires
        0 <= i < 6,
    ensures
        store_slot(store_arg_text(i)) == Some(8 * i),
{
    reveal_strlit("\tmov QWORD PTR[rsp], rax");
    reveal_strlit("\tmov QWORD PTR[rsp], rax\n");
    reveal_strlit("\tmov QWORD PTR[rsp+");
    reveal_strlit("], rax\n");
    reveal_strlit("\n");
    let p = "\tmov QWORD PTR[rsp+"@;
    let q = "], rax\n"@;
    let line = store_arg_text(i);
    if i == 0 {
        assert(line =~= "\tmov QWORD PTR[rsp], rax\n"@);
    } else {
        let ds = decimal((i * 8) as nat);
        lemma_decimal_digits((i * 8) as nat);
        assert(line == p + ds + q);
        assert(p.len() == 19 && q.len() == 7);
        assert(line[18] == '+');
        assert("\tmov QWORD PTR[rsp], rax\n"@[18] == ']');
        assert(line != "\tmov QWORD PTR[rsp], rax\n"@);
        assert(line.subrange(0, 19) =~= p);
        assert(line.subrange(line.len() - 7, line.len() as int) =~= q);
        assert(line.subrange(19, line.len() - 7) =~= ds);
        assert forall|k: int| p.len() <= k < line.len() - q.len() implies spec_is_digit(#[trigger] line[k]) by {
            assert(line[k] == ds[k - 19]);
        }
    }
}

/// The value that the x86 instruction `mn a, b` leaves in `a`, for the arithmetic
/// instructions `add`, `sub` and `imul` (as mathematical integers; both sides wrap alike).
pub open spec fn alu_value(mn: Seq<char>, a: int, b: int) -> Option<int> {
    if mn == "add"@ {
        Some(a + b)
    } else if mn == "sub"@ {
        Some(a - b)
    } else if mn == "imul"@ {
        Some(a * b)
    } else {
        None
    }
}

/// The value of the arithmetic operation `k` of C (`+`, `-`, `*`) on `a` and `b`.
pub open spec fn c_arith(k: Nodekind, a: int, b: int) -> int {
    match k {
        Nodekind::AddNd => a + b,
        Nodekind::SubNd => a - b,
        _ => a * b,
    }
}

/// Addition, subtraction and multiplication are one instruction on the left operand (in
/// `ax`) and the right one (in `di`) that leaves in `ax` the value that C gives.
pub proof fn lemma_arithmetic_computes_its_value(k: Nodekind, ax: Seq<char>, di: Seq<char>, dx: Seq<char>, cq: Seq<char>)
    requires
        k == Nodekind::AddNd || k == Nodekind::SubNd || k == Nodekind::MulNd,
    ensures
        exists|mn: Seq<char>|
            binop_text(k, ax, di, dx, cq) == Some(#[trigger] op2_text(mn, ax, di)) && forall|a: int, b: int|
                alu_value(mn, a, b) == Some(c_arith(k, a, b)),
{
    reveal_strlit("add");
    reveal_strlit("sub");
    reveal_strlit("imul");
    assert("add"@[0] == 'a' && "sub"@[0] == 's' && "imul"@.len() == 4 && "add"@.len() == 3);
    let mn = match k {
        Nodekind::AddNd => "add"@,
        Nodekind::SubNd => "sub"@,
        _ => "imul"@,
    };
    assert(binop_text(k, ax, di, dx, cq) == Some(op2_text(mn, ax, di)));
}

/// The value that the x86 instruction `mn a, b` leaves in `a`, for the bitwise instructions
/// `and`, `or` and `xor`.
pub open spec fn bitwise_value(mn: Seq<char>, a: i64, b: i64) -> Option<i64> {
    if mn == "and"@ {
        Some(a & b)
    } else if mn == "or"@ {
        Some(a | b)
    } else if mn == "xor"@ {
        Some(a ^ b)
    } else {
        None
    }
}

/// The value of the bitwise operation `k` of C (`&`, `|`, `^`) on `a` and `b`.
pub open spec fn c_bitwise(k: Nodekind, a: i64, b: i64) -> i64 {
    match k {
        Nodekind::BitAndNd => a & b,
        Nodekind::BitOrNd => a | b,
        _ => a ^ b,
    }
}

/// The bitwise operations are one instruction on the left operand (in `ax`) and the right one
/// (in `di`) that leaves in `ax` the value that C gives.
pub proof fn lemma_bitwise_computes_its_value(k: Nodekind, ax: Seq<char>, di: Seq<char>, dx: Seq<char>, cq: Seq<char>)
    requires
        k == Nodekind::BitAndNd || k == Nodekind::BitOrNd || k == Nodekind::BitXorNd,
    ensures
        exists|mn: Seq<char>|
            binop_text(k, ax, di, dx, cq) == Some(#[trigger] op2_text(mn, ax, di)) && forall|a: i64, b: i64|
                bitwise_value(mn, a, b) == Some(c_bitwise(k, a, b)),
{
    reveal_strlit("and");
    reveal_strlit("or");
    reveal_strlit("xor");
    assert("and"@[0] == 'a' && "xor"@[0] == 'x' && "or"@.len() == 2 && "and"@.len() == 3);
    let mn = match k {
        Nodekind::BitAndNd => "and"@,
        Nodekind::BitOrNd => "or"@,
        _ => "xor"@,
    };
    assert(binop_text(k, ax, di, dx, cq) == Some(op2_text(mn, ax, di)));
}

/// The value that the x86 instruction `mn a, cl` leaves in `a`, for the shifts `sal` and
/// `sar` by `n` places.
pub open spec fn shift_value(mn: Seq<char>, a: i64, n: i64) -> Option<i64> {
    if mn == "sal"@ {
        Some(a << n)
    } else if mn == "sar"@ {
        Some(a >> n)
    } else {
        None
    }
}

/// The value of the shift `k` of C (`<<`, `>>`) of `a` by `n` places.
pub open spec fn c_shift(k: Nodekind, a: i64, n: i64) -> i64 {
    match k {
        Nodekind::LShiftNd => a << n,
        _ => a >> n,
    }
}

/// A shift is one instruction on the left operand (in `ax`) by the count in `cl` that leaves
/// in `ax` the value that C gives: `<<` shifts left, `>>` shifts right keeping the sign.
pub proof fn lemma_shifts_compute_their_value(k: Nodekind, ax: Seq<char>, di: Seq<char>, dx: Seq<char>, cq: Seq<char>)
    requires
        k == Nodekind::LShiftNd || k == Nodekind::RShiftNd,
    ensures
        exists|mn: Seq<char>|
            binop_text(k, ax, di, dx, cq) == Some(#[trigger] op2_text(mn, ax, "cl"@)) && forall|a: i64, n: i64|
                shift_value(mn, a, n) == Some(c_shift(k, a, n)),
{
    reveal_strlit("sal");
    reveal_strlit("sar");
    assert("sal"@[2] == 'l' && "sar"@[2] == 'r');
    let mn = if k == Nodekind::LShiftNd {
        "sal"@
    } else {
        "sar"@
    };
    assert(binop_text(k, ax, di, dx, cq) == Some(op2_text(mn, ax, "cl"@)));
}

/// What stands in `ax` after `idiv` and then the code `rest`: the quotient where nothing
/// follows, the remainder where `rest` moves `dx` (where `idiv` leaves it) into `ax`.
pub open spec fn after_idiv(rest: Seq<char>, ax: Seq<char>, dx: Seq<char>, quotient: int, remainder: int) -> Option<int> {
    if rest.len() == 0 {
        Some(quotient)
    } else if rest == op2_text("mov"@, ax, dx) {
        Some(remainder)
    } else {
        None
    }
}

/// Division and remainder sign-extend the left operand (in `ax`) and divide it by the right
/// one (in `di`) with `idiv`; `/` then leaves the quotient in `ax`, `%` the remainder.
pub proof fn lemma_division_keeps_the_right_part(k: Nodekind, ax: Seq<char>, di: Seq<char>, dx: Seq<char>, cq: Seq<char>)
    requires
        k == Nodekind::DivNd || k == Nodekind::ModNd,
    ensures
        exists|rest: Seq<char>|
            binop_text(k, ax, di, dx, cq) == Some(op0_text(cq) + op1_text("idiv"@, di) + rest) && forall|q: int, m: int|
                #[trigger] after_idiv(rest, ax, dx, q, m) == Some(if k == Nodekind::DivNd { q } else { m }),
{
    reveal_strlit("mov");
    let rest = if k == Nodekind::DivNd {
        Seq::<char>::empty()
    } else {
        op2_text("mov"@, ax, dx)
    };
    assert(op2_text("mov"@, ax, dx).len() > 0);
    assert(binop_text(k, ax, di, dx, cq) =~= Some(op0_text(cq) + op1_text("idiv"@, di) + rest));
    assert(binop_text(k, ax, di, dx, cq) == Some(op0_text(cq) + op1_text("idiv"@, di) + rest));
}

} // verus!
