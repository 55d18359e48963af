//! The assembly output buffer, the label counters and the register tables.
use vstd::prelude::*;
use crate::typecell::{Type, RawType, get_raw_type, raw_type_index, spec_raw_type, raw_index};
use crate::utils::{decimal, push_chars, push_i64, push_str, push_u64, signed_decimal};
use vstd::string::*;

verus! {

/// The assembly text produced so far and the counters for control-flow and function labels.
#[derive(Debug)]
pub struct Asm {
    pub code: Vec<char>,
    pub ctrl_count: u32,
    pub func_count: u32,
}

/// The text every assembly output starts with.
pub open spec fn asm_header() -> Seq<char> {
    "\t.intel_syntax noprefix\n\t.text\n.LText0:\n"@
}

impl Asm {
    /// An output that holds only the header, with both counters at zero.
    pub fn new() -> (r: Asm)
        ensures
            r.code@ == asm_header(),
            r.ctrl_count == 0,
            r.func_count == 0,
    {
        let mut code: Vec<char> = Vec::new();
        push_str(&mut code, "\t.intel_syntax noprefix\n\t.text\n.LText0:\n");
        Asm { code, ctrl_count: 0, func_count: 0 }
    }

    /// An output with no text, with both counters at zero.
    pub fn empty() -> (r: Asm)
        ensures
            r.code@ == Seq::<char>::empty(),
            r.ctrl_count == 0,
            r.func_count == 0,
    {
        Asm { code: Vec::new(), ctrl_count: 0, func_count: 0 }
    }
}

/// The next number for a control-flow label; each call gives the next one.
pub fn get_ctrl_count(out: &mut Asm) -> (c: u32)
    requires
        old(out).ctrl_count < u32::MAX,
    ensures
        c == old(out).ctrl_count,
        final(out).ctrl_count == old(out).ctrl_count + 1,
        final(out).func_count == old(out).func_count,
        final(out).code == old(out).code,
        emitted(*old(out), *final(out)),
{
    proof {
        lemma_emitted_refl(*out);
    }
    let c = out.ctrl_count;
    out.ctrl_count = c + 1;
    c
}

/// The next number for a function label; each call gives the next one.
pub fn get_func_count(out: &mut Asm) -> (c: u32)
    requires
        old(out).func_count < u32::MAX,
    ensures
        c == old(out).func_count,
        final(out).func_count == old(out).func_count + 1,
        final(out).ctrl_count == old(out).ctrl_count,
        final(out).code == old(out).code,
        emitted(*old(out), *final(out)),
{
    proof {
        lemma_emitted_refl(*out);
    }
    let c = out.func_count;
    out.func_count = c + 1;
    c
}

/// The register sizes that have names.
pub open spec fn reg_size(size: usize) -> bool {
    size == 1 || size == 2 || size == 4 || size == 8
}

/// The name of the accumulator register of `size` bytes.
pub open spec fn spec_reg_ax(size: usize) -> Seq<char> {
    if size == 1 {
        "al"@
    } else if size == 2 {
        "ax"@
    } else if size == 4 {
        "eax"@
    } else {
        "rax"@
    }
}

/// The name of the destination index register of `size` bytes.
pub open spec fn spec_reg_di(size: usize) -> Seq<char> {
    if size == 1 {
        "dil"@
    } else if size == 2 {
        "di"@
    } else if size == 4 {
        "edi"@
    } else {
        "rdi"@
    }
}

/// The memory operand size keyword for `size` bytes.
pub open spec fn spec_word_ptr(size: usize) -> Seq<char> {
    if size == 1 {
        "BYTE PTR"@
    } else if size == 2 {
        "WORD PTR"@
    } else if size == 4 {
        "DWORD PTR"@
    } else {
        "QWORD PTR"@
    }
}

/// The accumulator register of `size` bytes.
pub fn reg_ax(size: usize) -> (r: &'static str)
    requires
        reg_size(size),
    ensures
        r@ == spec_reg_ax(size),
{
    match size {
        1 => "al",
        2 => "ax",
        4 => "eax",
        _ => "rax",
    }
}

/// The destination index register of `size` bytes.
pub fn reg_di(size: usize) -> (r: &'static str)
    requires
        reg_size(size),
    ensures
        r@ == spec_reg_di(size),
{
    match size {
        1 => "dil",
        2 => "di",
        4 => "edi",
        _ => "rdi",
    }
}

/// The memory operand size keyword for `size` bytes.
pub fn word_ptr(size: usize) -> (r: &'static str)
    requires
        reg_size(size),
    ensures
        r@ == spec_word_ptr(size),
{
    match size {
        1 => "BYTE PTR",
        2 => "WORD PTR",
        4 => "DWORD PTR",
        _ => "QWORD PTR",
    }
}

/// The load instruction for `size` bytes: sign-extending for a byte.
pub open spec fn spec_mov_op(size: usize) -> Seq<char> {
    if size == 1 {
        "movsx"@
    } else {
        "mov"@
    }
}

/// The load instruction for `size` bytes.
pub fn mov_op(size: usize) -> (r: &'static str)
    ensures
        r@ == spec_mov_op(size),
{
    match size {
        1 => "movsx",
        _ => "mov",
    }
}

/// The argument register sizes that have names.
pub open spec fn arg_reg_size(size: usize) -> bool {
    size == 1 || size == 4 || size == 8
}

/// The register that holds argument `ix` (from zero) of `size` bytes.
pub open spec fn spec_arg_register(size: usize, ix: usize) -> Seq<char> {
    if size == 1 {
        seq!["dil"@, "sil"@, "dl"@, "cl"@, "r8b"@, "r9b"@][ix as int]
    } else if size == 4 {
        seq!["edi"@, "esi"@, "edx"@, "ecx"@, "r8d"@, "r9d"@][ix as int]
    } else {
        seq!["rdi"@, "rsi"@, "rdx"@, "rcx"@, "r8"@, "r9"@][ix as int]
    }
}

/// The register that holds argument `ix` (from zero) of `size` bytes.
pub fn args_register(size: usize, ix: usize) -> (r: &'static str)
    requires
        arg_reg_size(size),
        ix < 6,
    ensures
        r@ == spec_arg_register(size, ix),
{
    if size == 1 {
        match ix {
            0 => "dil",
            1 => "sil",
            2 => "dl",
            3 => "cl",
            4 => "r8b",
            _ => "r9b",
        }
    } else if size == 4 {
        match ix {
            0 => "edi",
            1 => "esi",
            2 => "edx",
            3 => "ecx",
            4 => "r8d",
            _ => "r9d",
        }
    } else {
        match ix {
            0 => "rdi",
            1 => "rsi",
            2 => "rdx",
            3 => "rcx",
            4 => "r8",
            _ => "r9",
        }
    }
}

/// The instruction that converts a value from raw type `from` to raw type `to` (empty when
/// none is needed): only conversions from or to a byte sign-extend.
pub open spec fn spec_cast_code(from: RawType, to: RawType) -> Seq<char> {
    if (from == RawType::I8) != (to == RawType::I8) {
        "\tmovsbl eax, al"@
    } else {
        Seq::empty()
    }
}

/// The conversion table entry for `from` and `to`.
pub fn cast_table(from: usize, to: usize) -> (r: &'static str)
    requires
        from < 3,
        to < 3,
    ensures
        (from == 0) != (to == 0) ==> r@ == "\tmovsbl eax, al"@,
        (from == 0) == (to == 0) ==> r@ == Seq::<char>::empty(),
{
    proof {
        reveal_strlit("");
    }
    if (from == 0) != (to == 0) {
        "\tmovsbl eax, al"
    } else {
        ""
    }
}

/// Writes the instruction that converts a value of kind `from` to kind `to`, if one is needed.
pub fn cast(out: &mut Asm, from: Type, to: Type)
    requires
        from != Type::Invalid,
        to != Type::Invalid,
    ensures
        final(out).ctrl_count == old(out).ctrl_count,
        final(out).func_count == old(out).func_count,
        spec_cast_code(spec_raw_type(from), spec_raw_type(to)).len() == 0 ==> final(out).code@
            == old(out).code@,
        spec_cast_code(spec_raw_type(from), spec_raw_type(to)).len() > 0 ==> final(out).code@
            == old(out).code@ + spec_cast_code(spec_raw_type(from), spec_raw_type(to)) + "\n"@,
{
    let t1 = raw_type_index(get_raw_type(from));
    let t2 = raw_type_index(get_raw_type(to));
    let cast_code = cast_table(t1, t2);
    proof {
        reveal_strlit("\tmovsbl eax, al");
    }
    if cast_code.unicode_len() > 0 {
        asm_write(out, cast_code);
    }
}

/// `f` is `o` with more text after it and counters not behind.
pub open spec fn emitted(o: Asm, f: Asm) -> bool {
    &&& o.code@.is_prefix_of(f.code@)
    &&& o.ctrl_count <= f.ctrl_count
    &&& o.func_count <= f.func_count
}

/// `f` is `o` with exactly `text` after it and the same counters.
pub open spec fn writes(o: Asm, f: Asm, text: Seq<char>) -> bool {
    &&& f.code@ == o.code@ + text
    &&& f.ctrl_count == o.ctrl_count
    &&& f.func_count == o.func_count
}

/// Writing text is emitting.
pub broadcast proof fn lemma_writes_emitted(o: Asm, f: Asm, text: Seq<char>)
    requires
        #[trigger] writes(o, f, text),
    ensures
        emitted(o, f),
{
    assert(o.code@ =~= f.code@.subrange(0, o.code@.len() as int));
}

/// Emitting nothing.
pub proof fn lemma_emitted_refl(a: Asm)
    ensures
        emitted(a, a),
{
    assert(a.code@ =~= a.code@.subrange(0, a.code@.len() as int));
}

/// Emitting is transitive.
pub broadcast proof fn lemma_emitted_trans(a: Asm, b: Asm, c: Asm)
    requires
        #[trigger] emitted(a, b),
        #[trigger] emitted(b, c),
    ensures
        emitted(a, c),
{
    assert(a.code@ =~= c.code@.subrange(0, a.code@.len() as int));
}

/// Writes `line` and a newline.
pub fn asm_write(out: &mut Asm, line: &str)
    ensures
        writes(*old(out), *final(out), line@ + "\n"@),
{
    push_str(&mut out.code, line);
    push_str(&mut out.code, "\n");
    proof {
        assert(out.code@ =~= old(out).code@ + (line@ + "\n"@));
    }
}

/// Writes `s`.
pub fn put(out: &mut Asm, s: &str)
    ensures
        writes(*old(out), *final(out), s@),
{
    push_str(&mut out.code, s);
}

/// Writes the characters of `s`.
pub fn put_chars(out: &mut Asm, s: &Vec<char>)
    ensures
        writes(*old(out), *final(out), s@),
{
    push_chars(&mut out.code, s);
}

/// Writes `n` in decimal.
pub fn put_u64(out: &mut Asm, n: u64)
    ensures
        writes(*old(out), *final(out), decimal(n as nat)),
{
    push_u64(&mut out.code, n);
}

/// Writes `n` in decimal, with a '-' when negative.
pub fn put_i64(out: &mut Asm, n: i64)
    ensures
        writes(*old(out), *final(out), signed_decimal(n as int)),
{
    push_i64(&mut out.code, n);
}

/// The instruction line `op` with no operand.
pub open spec fn op0_text(op: Seq<char>) -> Seq<char> {
    "\t"@ + op + "\n"@
}

/// The instruction line `op a`.
pub open spec fn op1_text(op: Seq<char>, a: Seq<char>) -> Seq<char> {
    "\t"@ + op + " "@ + a + "\n"@
}

/// The instruction line `op a, b`.
pub open spec fn op2_text(op: Seq<char>, a: Seq<char>, b: Seq<char>) -> Seq<char> {
    "\t"@ + op + " "@ + a + ", "@ + b + "\n"@
}

/// The label line `name:`.
pub open spec fn label_text(name: Seq<char>) -> Seq<char> {
    name + ":\n"@
}

/// The memory operand `[base-offset]`.
pub open spec fn at_offset(base: Seq<char>, offset: nat) -> Seq<char> {
    "["@ + base + "-"@ + decimal(offset) + "]"@
}

/// The memory operand `[base]`.
pub open spec fn at_addr(base: Seq<char>) -> Seq<char> {
    "["@ + base + "]"@
}

/// Writes `\top`.
pub fn operate0(out: &mut Asm, op: &str)
    ensures
        writes(*old(out), *final(out), op0_text(op@)),
{
    put(out, "\t");
    put(out, op);
    put(out, "\n");
    proof {
        assert(out.code@ =~= old(out).code@ + op0_text(op@));
    }
}

/// Writes `\top a`.
pub fn operate1(out: &mut Asm, op: &str, a: &str)
    ensures
        writes(*old(out), *final(out), op1_text(op@, a@)),
{
    put(out, "\t");
    put(out, op);
    put(out, " ");
    put(out, a);
    put(out, "\n");
    proof {
        assert(out.code@ =~= old(out).code@ + op1_text(op@, a@));
    }
}

/// Writes `\top a` for an operand held as characters (a label or a symbol).
pub fn operate1_chars(out: &mut Asm, op: &str, a: &Vec<char>)
    ensures
        writes(*old(out), *final(out), op1_text(op@, a@)),
{
    put(out, "\t");
    put(out, op);
    put(out, " ");
    put_chars(out, a);
    put(out, "\n");
    proof {
        assert(out.code@ =~= old(out).code@ + op1_text(op@, a@));
    }
}

/// Writes `\top a, b`.
pub fn operate2(out: &mut Asm, op: &str, a: &str, b: &str)
    ensures
        writes(*old(out), *final(out), op2_text(op@, a@, b@)),
{
    put(out, "\t");
    put(out, op);
    put(out, " ");
    put(out, a);
    put(out, ", ");
    put(out, b);
    put(out, "\n");
    proof {
        assert(out.code@ =~= old(out).code@ + op2_text(op@, a@, b@));
    }
}

/// Writes `\top a, n` for a number `n`.
pub fn operate2_num(out: &mut Asm, op: &str, a: &str, n: i64)
    ensures
        writes(*old(out), *final(out), op2_text(op@, a@, signed_decimal(n as int))),
{
    put(out, "\t");
    put(out, op);
    put(out, " ");
    put(out, a);
    put(out, ", ");
    put_i64(out, n);
    put(out, "\n");
    proof {
        assert(out.code@ =~= old(out).code@ + op2_text(op@, a@, signed_decimal(n as int)));
    }
}

/// Writes `\top a, n` for an unsigned number `n`.
pub fn operate2_unum(out: &mut Asm, op: &str, a: &str, n: u64)
    ensures
        writes(*old(out), *final(out), op2_text(op@, a@, decimal(n as nat))),
{
    put(out, "\t");
    put(out, op);
    put(out, " ");
    put(out, a);
    put(out, ", ");
    put_u64(out, n);
    put(out, "\n");
    proof {
        assert(out.code@ =~= old(out).code@ + op2_text(op@, a@, decimal(n as nat)));
    }
}

/// Writes the label line `name:`.
pub fn label(out: &mut Asm, name: &Vec<char>)
    ensures
        writes(*old(out), *final(out), label_text(name@)),
{
    put_chars(out, name);
    put(out, ":\n");
    proof {
        assert(out.code@ =~= old(out).code@ + label_text(name@));
    }
}

/// Writes a store of `src` into the `size` bytes at `[base-offset]`.
pub fn mov_to_offset(out: &mut Asm, size: usize, base: &str, src: &str, offset: usize)
    requires
        reg_size(size),
    ensures
        writes(
            *old(out),
            *final(out),
            op2_text("mov"@, spec_word_ptr(size) + " "@ + at_offset(base@, offset as nat), src@),
        ),
{
    let w = word_ptr(size);
    put(out, "\tmov ");
    put(out, w);
    put(out, " [");
    put(out, base);
    put(out, "-");
    put_u64(out, offset as u64);
    put(out, "], ");
    put(out, src);
    put(out, "\n");
    proof {
        reveal_strlit("\tmov ");
        reveal_strlit("\t");
        reveal_strlit("mov");
        reveal_strlit(" ");
        reveal_strlit(" [");
        reveal_strlit("[");
        reveal_strlit("], ");
        reveal_strlit("]");
        reveal_strlit(", ");
        assert(out.code@ =~= old(out).code@ + op2_text(
            "mov"@,
            spec_word_ptr(size) + " "@ + at_offset(base@, offset as nat),
            src@,
        ));
    }
}

/// Writes a store of `src` into the `size` bytes at `[base]`.
pub fn mov_to_addr(out: &mut Asm, size: usize, base: &str, src: &str)
    requires
        reg_size(size),
    ensures
        writes(*old(out), *final(out), op2_text("mov"@, spec_word_ptr(size) + " "@ + at_addr(base@), src@)),
{
    let w = word_ptr(size);
    put(out, "\tmov ");
    put(out, w);
    put(out, " [");
    put(out, base);
    put(out, "], ");
    put(out, src);
    put(out, "\n");
    proof {
        reveal_strlit("\tmov ");
        reveal_strlit("\t");
        reveal_strlit("mov");
        reveal_strlit(" ");
        reveal_strlit(" [");
        reveal_strlit("[");
        reveal_strlit("], ");
        reveal_strlit("]");
        reveal_strlit(", ");
        assert(out.code@ =~= old(out).code@ + op2_text("mov"@, spec_word_ptr(size) + " "@ + at_addr(base@), src@));
    }
}

/// Writes a load of the `size` bytes at `[base-offset]` into `dst`.
pub fn mov_from_offset(out: &mut Asm, size: usize, dst: &str, base: &str, offset: usize)
    requires
        reg_size(size),
    ensures
        writes(
            *old(out),
            *final(out),
            op2_text(spec_mov_op(size), dst@, spec_word_ptr(size) + " "@ + at_offset(base@, offset as nat)),
        ),
{
    let w = word_ptr(size);
    let m = mov_op(size);
    put(out, "\t");
    put(out, m);
    put(out, " ");
    put(out, dst);
    put(out, ", ");
    put(out, w);
    put(out, " [");
    put(out, base);
    put(out, "-");
    put_u64(out, offset as u64);
    put(out, "]\n");
    proof {
        reveal_strlit(" [");
        reveal_strlit("[");
        reveal_strlit("]\n");
        reveal_strlit("]");
        reveal_strlit("\n");
        reveal_strlit(" ");
        assert(out.code@ =~= old(out).code@ + op2_text(
            spec_mov_op(size),
            dst@,
            spec_word_ptr(size) + " "@ + at_offset(base@, offset as nat),
        ));
    }
}

/// Writes a load of the `size` bytes at `[base]` into `dst`.
pub fn mov_from_addr(out: &mut Asm, size: usize, dst: &str, base: &str)
    requires
        reg_size(size),
    ensures
        writes(*old(out), *final(out), op2_text(spec_mov_op(size), dst@, spec_word_ptr(size) + " "@ + at_addr(base@))),
{
    let w = word_ptr(size);
    let m = mov_op(size);
    put(out, "\t");
    put(out, m);
    put(out, " ");
    put(out, dst);
    put(out, ", ");
    put(out, w);
    put(out, " [");
    put(out, base);
    put(out, "]\n");
    proof {
        reveal_strlit(" [");
        reveal_strlit("[");
        reveal_strlit("]\n");
        reveal_strlit("]");
        reveal_strlit("\n");
        reveal_strlit(" ");
        assert(out.code@ =~= old(out).code@ + op2_text(spec_mov_op(size), dst@, spec_word_ptr(size) + " "@ + at_addr(base@)));
    }
}

/// Writes the load of the address of the global `name` into `dst`.
pub fn mov_glb_addr(out: &mut Asm, dst: &str, name: &Vec<char>)
    ensures
        writes(*old(out), *final(out), op2_text("lea"@, dst@, name@ + "[rip]"@)),
{
    put(out, "\tlea ");
    put(out, dst);
    put(out, ", ");
    put_chars(out, name);
    put(out, "[rip]\n");
    proof {
        reveal_strlit("\tlea ");
        reveal_strlit("\t");
        reveal_strlit("lea");
        reveal_strlit(" ");
        reveal_strlit("[rip]\n");
        reveal_strlit("[rip]");
        reveal_strlit("\n");
        assert(out.code@ =~= old(out).code@ + op2_text("lea"@, dst@, name@ + "[rip]"@));
    }
}

/// Writes a load of the `size` bytes of the global `name` into `dst`.
pub fn mov_from_glb(out: &mut Asm, size: usize, dst: &str, name: &Vec<char>)
    requires
        reg_size(size),
    ensures
        writes(*old(out), *final(out), op2_text("mov"@, dst@, spec_word_ptr(size) + " "@ + name@ + "[rip]"@)),
{
    let w = word_ptr(size);
    put(out, "\tmov ");
    put(out, dst);
    put(out, ", ");
    put(out, w);
    put(out, " ");
    put_chars(out, name);
    put(out, "[rip]\n");
    proof {
        reveal_strlit("\tmov ");
        reveal_strlit("\t");
        reveal_strlit("mov");
        reveal_strlit(" ");
        reveal_strlit("[rip]\n");
        reveal_strlit("[rip]");
        reveal_strlit("\n");
        assert(out.code@ =~= old(out).code@ + op2_text("mov"@, dst@, spec_word_ptr(size) + " "@ + name@ + "[rip]"@));
    }
}

/// Writes the load of the address `base-offset` into `dst`.
pub fn lea(out: &mut Asm, dst: &str, base: &str, offset: usize)
    ensures
        writes(*old(out), *final(out), op2_text("lea"@, dst@, at_offset(base@, offset as nat))),
{
    put(out, "\tlea ");
    put(out, dst);
    put(out, ", [");
    put(out, base);
    put(out, "-");
    put_u64(out, offset as u64);
    put(out, "]\n");
    proof {
        reveal_strlit("\tlea ");
        reveal_strlit("\t");
        reveal_strlit("lea");
        reveal_strlit(" ");
        reveal_strlit(", [");
        reveal_strlit(", ");
        reveal_strlit("[");
        reveal_strlit("]\n");
        reveal_strlit("]");
        reveal_strlit("\n");
        assert(out.code@ =~= old(out).code@ + op2_text("lea"@, dst@, at_offset(base@, offset as nat)));
    }
}

} // verus!
