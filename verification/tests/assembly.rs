use rscc::assembly::{cast, get_ctrl_count, get_func_count, reg_ax, reg_di, word_ptr, Asm};
use rscc::typecell::Type;

fn text(out: &Asm) -> String {
    out.code.iter().collect::<String>()
}

#[test]
fn cast_test() {
    let mut out = Asm::empty();
    cast(&mut out, Type::Int, Type::Int);
    assert_eq!(text(&out), String::new());

    let mut out = Asm::empty();
    cast(&mut out, Type::Int, Type::Ptr);
    assert_eq!(text(&out), String::new());

    let mut out = Asm::empty();
    cast(&mut out, Type::Char, Type::Ptr);
    assert_eq!(text(&out), format!("{}\n", "\tmovsbl eax, al"));
}

#[test]
fn get_count_test() {
    let mut out = Asm::new();
    for i in 0..1000 {
        assert_eq!(get_ctrl_count(&mut out), i);
        assert_eq!(get_func_count(&mut out), i);
    }
}

#[test]
fn reg_and_word_test() {
    for (i, reg) in [(1, "al"), (2, "ax"), (4, "eax"), (8, "rax")] {
        assert_eq!(reg_ax(i), reg);
    }

    for (i, reg) in [(1, "dil"), (2, "di"), (4, "edi"), (8, "rdi")] {
        assert_eq!(reg_di(i), reg);
    }

    for (i, reg) in [
        (1, "BYTE PTR"),
        (2, "WORD PTR"),
        (4, "DWORD PTR"),
        (8, "QWORD PTR"),
    ] {
        assert_eq!(word_ptr(i), reg);
    }
}
