use rscc::assembly::{asm_write, get_ctrl_count, Asm};
use rscc::generator::{gen_addr, gen_expr, generate, load_literals, zero_clear};
use rscc::node::{Node, Nodekind};
use rscc::parser::{align, get_alignment_base, parse, program, Literal, Parser};
use rscc::token::{token_text, Token, Tokenkind};
use rscc::tokenizer::tokenize;
use rscc::typecell::{type_cell_eq, Type, TypeCell};

fn lines(src: &str) -> Vec<Vec<char>> {
    let mut code: Vec<Vec<char>> = vec![Vec::new()];
    for line in src.split('\n') {
        let mut l: Vec<char> = line.chars().collect();
        l.push('\n');
        code.push(l);
    }
    code
}

fn text(out: &Asm) -> String {
    out.code.iter().collect::<String>()
}

fn chars(s: &str) -> Vec<char> {
    s.chars().collect()
}

fn compile(src: &str) -> Result<String, String> {
    let code = lines(src);
    let head = tokenize(&code, 0).map_err(|e| e.msg.iter().collect::<String>())?;
    let (trees, literals, tokens) = parse(head).map_err(|e| e.msg.iter().collect::<String>())?;
    let mut out = Asm::empty();
    generate(&mut out, &trees, &literals, &tokens).map_err(|e| e.msg.iter().collect::<String>())?;
    Ok(text(&out))
}

#[test]
fn align_rounds_up_to_the_base() {
    assert_eq!(align(13, 8), Some(16));
    assert_eq!(align(16, 8), Some(16));
    assert_eq!(align(0, 4), Some(0));
    assert_eq!(align(5, 1), Some(5));
    assert_eq!(align(usize::MAX, 8), None);
}

#[test]
fn alignment_follows_the_size() {
    assert_eq!(get_alignment_base(1), 1);
    assert_eq!(get_alignment_base(3), 2);
    assert_eq!(get_alignment_base(4), 4);
    assert_eq!(get_alignment_base(12), 8);
    assert_eq!(get_alignment_base(40), 16);
}

#[test]
fn zero_clear_small_area() {
    let mut out = Asm::empty();
    zero_clear(&mut out, 20, 15);
    assert_eq!(
        text(&out),
        "\tmov QWORD PTR [rbp-20], 0\n\tmov DWORD PTR [rbp-12], 0\n\tmov WORD PTR [rbp-8], 0\n\tmov BYTE PTR [rbp-6], 0\n"
    );
}

#[test]
fn zero_clear_large_area() {
    let mut out = Asm::empty();
    zero_clear(&mut out, 136, 129);
    assert_eq!(
        text(&out),
        "\tlea rdi, [rbp-136]\n\tmov rax, 0\n\tmov rcx, 16\n\trep stosq\n\tmov eax, 0\n\tmov BYTE PTR [rbp-8], 0\n"
    );
}

#[test]
fn zero_clear_nothing() {
    let mut out = Asm::empty();
    zero_clear(&mut out, 8, 0);
    assert_eq!(text(&out), "");
}

#[test]
fn counters_give_each_number_once() {
    let mut out = Asm::empty();
    let a = get_ctrl_count(&mut out);
    let b = get_ctrl_count(&mut out);
    assert_ne!(a, b);
    assert_eq!(b, a + 1);
}

#[test]
fn control_statements_get_distinct_labels() {
    let listing = compile("int main() { int i; if (i) i = 1; if (i) i = 2; while (i) i = 0; return i; }").unwrap();
    assert!(listing.contains(".LEnd0:"));
    assert!(listing.contains(".LEnd1:"));
    assert!(listing.contains(".LBegin2:"));
    assert!(listing.contains(".LEnd2:"));
    assert_eq!(listing.matches(".LEnd1:").count(), 1);
}

#[test]
fn equal_literals_share_a_label() {
    let code = lines("int main() { \"aaaa\"; \"bbbb\"; \"aaaa\"; return 0; }");
    let head = tokenize(&code, 0).unwrap();
    let (_, literals, _) = parse(head).unwrap();
    assert_eq!(literals.len(), 2);
    assert_eq!(literals[0].name, chars(".LC0"));
    assert_eq!(literals[0].body, chars("aaaa"));
    assert_eq!(literals[1].name, chars(".LC1"));
    assert_eq!(literals[1].body, chars("bbbb"));
}

#[test]
fn literals_come_first_in_the_output() {
    let mut out = Asm::empty();
    let lits = vec![
        Literal { body: chars("hi"), name: chars(".LC0") },
        Literal { body: chars("yo"), name: chars(".LC1") },
    ];
    load_literals(&mut out, &lits);
    assert_eq!(text(&out), "\t.section .rodata\n.LC0:\n\t.string \"hi\"\n.LC1:\n\t.string \"yo\"\n");
    let mut empty = Asm::empty();
    load_literals(&mut empty, &Vec::new());
    assert_eq!(text(&empty), "");
}

#[test]
fn locals_get_disjoint_slots() {
    let code = lines("int a; char b; int c[3]; int d;");
    let token_ptr = tokenize(&code, 0).unwrap();
    let mut p = Parser::new(token_ptr);
    let _ = rscc::parser::parse_stmts(&mut p).unwrap();
    let offsets: Vec<usize> = p.locals.iter().map(|l| l.offset).collect();
    assert_eq!(offsets, vec![8, 16, 32, 40]);
    for i in 0..p.locals.len() {
        for j in (i + 1)..p.locals.len() {
            assert!(p.locals[j].offset - p.locals[j].size >= p.locals[i].offset);
        }
        assert!(p.locals[i].offset <= p.lvar_max_offset);
    }
}

#[test]
fn function_frame_is_rounded_to_eight() {
    let listing = compile("int main() { char c; return c; }").unwrap();
    assert!(listing.contains("\tsub rsp, 8\n"));
}

#[test]
fn deref_undoes_pointer() {
    let int = TypeCell::new(Type::Int);
    let ptr = int.make_ptr_to();
    assert_eq!(ptr.typ, Type::Ptr);
    let back = ptr.make_deref().unwrap();
    assert_eq!(back.typ, Type::Int);
    assert_eq!(back.chains, 0);
    assert!(TypeCell::new(Type::Int).make_deref().is_err());
}

#[test]
fn array_sizes_multiply() {
    let int = TypeCell::new(Type::Int);
    let a = int.make_array_of(4);
    assert_eq!(a.bytes(), 16);
    assert_eq!(a.flatten_size(), 4);
    let b = a.make_array_of(3);
    assert_eq!(b.bytes(), 48);
    assert_eq!(b.flatten_size(), 12);
    let c = TypeCell::new(Type::Char).make_array_of(5);
    assert_eq!(c.bytes(), 5);
}

#[test]
fn types_equal_themselves() {
    let t = TypeCell::new(Type::Char).make_ptr_to().make_array_of(2);
    assert_eq!(t, t.copy());
    let f = TypeCell::make_func(TypeCell::new(Type::Int), rscc::typecell::TypeList::Nil);
    assert_eq!(f, f.copy());
}

#[test]
fn type_strings() {
    let int = TypeCell::new(Type::Int);
    assert_eq!(int.type_string(), chars("int"));
    assert_eq!(int.make_ptr_to().type_string(), chars("int*"));
    assert_eq!(int.make_array_of(4).make_array_of(3).type_string(), chars("int[3][4]"));
    assert_eq!(int.make_array_of(4).make_ptr_to().type_string(), chars("int (*)[4]"));
}

#[test]
fn tokenizer_errors() {
    let e = tokenize(&lines("int a = $;"), 0).unwrap_err();
    assert_eq!(e.msg, chars("トークナイズできません"));
    let e = tokenize(&lines("char *s = \"open;"), 0).unwrap_err();
    assert_eq!(e.msg, chars("終わり引用符がありません。"));
    let e = tokenize(&lines("int a = 99999999999;"), 0).unwrap_err();
    assert_eq!(e.msg, chars("数値が大きすぎます。"));
}

#[test]
fn tokenizer_reads_numbers_and_ends_with_eof() {
    let ts = tokenize(&lines("x = 42;"), 0).unwrap();
    assert_eq!(ts.pos, 0);
    assert_eq!(ts.tokens.len(), 5);
    assert_eq!(ts.tokens[2].kind, Tokenkind::Num);
    assert_eq!(ts.tokens[2].val, Some(42));
    assert_eq!(ts.tokens[4].kind, Tokenkind::Eof);
}

#[test]
fn parser_errors() {
    assert_eq!(compile("int main() { return x; }").unwrap_err(), "定義されていない変数です。");
    assert_eq!(compile("int f(int, int);\nint f(int a, int b) { return a; }\nint f(int a, int b) { return b; }").unwrap_err().contains("既に定義"), true);
    assert_eq!(compile("int x;\nint x;").unwrap_err().contains("既にグローバル変数として宣言されています"), true);
    assert_eq!(compile("int f(int a, int b, int c, int d, int e, int f, int g) { return 0; }").unwrap_err(), "現在7つ以上の引数はサポートされていません。");
    assert_eq!(compile("int f(int) { return 0; }").unwrap_err(), "関数の定義時には引数名を省略できません。");
}

#[test]
fn address_of_a_number_is_refused() {
    let mut out = Asm::empty();
    let mut n = Node::blank(Nodekind::NumNd);
    n.val = Some(3);
    let e = gen_addr(&mut out, &n, &Vec::new()).unwrap_err();
    assert_eq!(e.msg, chars("左辺値が変数ではありません。"));
}

#[test]
fn addresses_of_variables() {
    let mut out = Asm::empty();
    let mut n = Node::blank(Nodekind::LvarNd);
    n.is_local = true;
    n.offset = Some(16);
    gen_addr(&mut out, &n, &Vec::new()).unwrap();
    assert_eq!(text(&out), "\tlea rax, [rbp-16]\n");
    let mut out = Asm::empty();
    let mut g = Node::blank(Nodekind::LvarNd);
    g.name = Some(chars("X"));
    gen_addr(&mut out, &g, &Vec::new()).unwrap();
    assert_eq!(text(&out), "\tlea rax, X[rip]\n");
}

#[test]
fn numbers_and_prototypes() {
    let mut out = Asm::empty();
    let mut n = Node::blank(Nodekind::NumNd);
    n.val = Some(-7);
    gen_expr(&mut out, &n, &Vec::new()).unwrap();
    assert_eq!(text(&out), "\tmov rax, -7\n");
    let listing = compile("int f(int);").unwrap();
    assert_eq!(listing, "");
}

#[test]
fn whole_program() {
    let listing = compile("int main() { return 1 + 2; }").unwrap();
    assert!(listing.starts_with("\t.text\n\t.globl main\n\t.type main, @function\nmain:\n.LFB0:\n\tpush rbp\n\tmov rbp, rsp\n"));
    assert!(listing.ends_with(".LFE0:\n\t.size main, .-main\n"));
    assert!(listing.contains("\tadd eax, edi\n"));
}

#[test]
fn global_variable() {
    let listing = compile("int x[3];").unwrap();
    assert_eq!(listing, "\t.globl x\n\t.bss\n\t.type x, @object\n\t.size x, 12\nx:\n\t.zero 12\n");
}

#[test]
fn output_starts_with_the_header() {
    let mut out = Asm::new();
    asm_write(&mut out, "x");
    assert_eq!(text(&out), "\t.intel_syntax noprefix\n\t.text\n.LText0:\nx\n");
}

#[test]
fn listings() {
    let mut n = Node::blank(Nodekind::LvarNd);
    n.is_local = true;
    n.offset = Some(8);
    n.val = Some(3);
    assert_eq!(
        n.text(&Vec::new()).iter().collect::<String>(),
        "----------------------------------------\nNodekind : LvarNd<Local>\nval: 3\noffset: 8\n"
    );
    let ts = tokenize(&lines("1"), 0).unwrap();
    let t: String = token_text(&ts.tokens, 0).iter().collect();
    assert_eq!(
        t,
        "----------------------------------------\nkind: Number Token\npos: [1, 1]\nlength: 1\nbody: 1\nval: 1\nnext: -> Eof\n\n"
    );
    let d = Token::default();
    assert_eq!(d.kind, Tokenkind::Default);
}

#[test]
fn program_declarations_are_globals() {
    let code = lines("int g; int f(int a) { return a; }");
    let token_ptr = tokenize(&code, 0).unwrap();
    let mut p = Parser::new(token_ptr);
    let trees = program(&mut p).unwrap();
    assert_eq!(trees.len(), 2);
    for t in &trees {
        assert_eq!(t.kind, Nodekind::GlobalNd);
    }
    assert_eq!(p.globals.len(), 2);
}

fn parser_for(src: &str) -> Parser {
    let code = lines(src);
    let token_ptr = tokenize(&code, 0).unwrap();
    Parser::new(token_ptr)
}

fn tree_text(n: &Node, p: &Parser) -> String {
    n.text(&p.token_ptr.tokens).iter().collect()
}

#[test]
fn typing_twice_is_typing_once() {
    let mut p = parser_for("int a; int b[3]; a = 2; *b + 1; &a - 1; b + a;");
    let stmts = rscc::parser::parse_stmts(&mut p).unwrap();
    for s in stmts {
        let before = tree_text(&s, &p);
        let mut again = s;
        rscc::parser::confirm_type(&mut again, &p.token_ptr.tokens).unwrap();
        assert_eq!(tree_text(&again, &p), before);
    }
}

#[test]
fn typing_converts_operands() {
    let mut p = parser_for("char c; c + 1;");
    let stmts = rscc::parser::parse_stmts(&mut p).unwrap();
    let sum = &stmts[1];
    assert_eq!(sum.kind, Nodekind::AddNd);
    assert_eq!(sum.typ.as_ref().unwrap().typ, Type::Int);
    let l = sum.left.as_ref().unwrap();
    assert_eq!(l.kind, Nodekind::CastNd);
    assert_eq!(l.typ.as_ref().unwrap().typ, Type::Int);
    assert_eq!(l.left.as_ref().unwrap().kind, Nodekind::LvarNd);
    assert_eq!(l.left.as_ref().unwrap().typ.as_ref().unwrap().typ, Type::Char);
    let r = sum.right.as_ref().unwrap();
    assert_eq!(r.kind, Nodekind::CastNd);
    assert_eq!(r.left.as_ref().unwrap().val, Some(1));
}

#[test]
fn assignment_to_an_array_is_refused() {
    let mut p = parser_for("int a[2]; int b; a = b;");
    let e = rscc::parser::parse_stmts(&mut p).unwrap_err();
    assert!(e.msg.iter().collect::<String>().starts_with("左辺値は代入可能な型である必要がありますが、配列型\""));
}

fn scaled_number(n: &Node) -> Option<i32> {
    let m = n.left.as_ref().unwrap();
    assert_eq!(m.kind, Nodekind::MulNd);
    let c = m.left.as_ref().unwrap();
    assert_eq!(c.kind, Nodekind::CastNd);
    c.left.as_ref().unwrap().val
}

#[test]
fn pointer_plus_integer_scales_by_the_pointee() {
    let mut p = parser_for("int a; char s[4]; &a + 2; 2 + &a; s + 3;");
    let stmts = rscc::parser::parse_stmts(&mut p).unwrap();
    for (k, size, ptr_kind, typ) in [
        (2usize, 4i32, Nodekind::AddrNd, Type::Ptr),
        (3, 4, Nodekind::AddrNd, Type::Ptr),
        (4, 1, Nodekind::LvarNd, Type::Array),
    ] {
        let sum = &stmts[k];
        assert_eq!(sum.kind, Nodekind::AddNd);
        assert_eq!(sum.typ.as_ref().unwrap().typ, typ);
        let left = sum.left.as_ref().unwrap();
        assert_eq!(left.kind, Nodekind::CastNd);
        assert_eq!(left.left.as_ref().unwrap().kind, ptr_kind);
        let right = sum.right.as_ref().unwrap();
        assert_eq!(right.kind, Nodekind::CastNd);
        assert_eq!(scaled_number(right), Some(size));
    }
}

#[test]
fn pointer_differences() {
    let mut p = parser_for("int a; int b; &a - &b; &a - 1;");
    let stmts = rscc::parser::parse_stmts(&mut p).unwrap();
    let d = &stmts[2];
    assert_eq!(d.kind, Nodekind::DivNd);
    assert_eq!(d.typ.as_ref().unwrap().typ, Type::Int);
    assert_eq!(d.left.as_ref().unwrap().kind, Nodekind::SubNd);
    assert_eq!(d.right.as_ref().unwrap().val, Some(4));
    let s = &stmts[3];
    assert_eq!(s.kind, Nodekind::SubNd);
    assert_eq!(s.typ.as_ref().unwrap().typ, Type::Ptr);
    assert_eq!(s.left.as_ref().unwrap().kind, Nodekind::AddrNd);
    let m = s.right.as_ref().unwrap();
    assert_eq!(m.kind, Nodekind::MulNd);
    assert_eq!(m.left.as_ref().unwrap().left.as_ref().unwrap().val, Some(4));
}

#[test]
fn pointer_arithmetic_errors() {
    let mut p = parser_for("int a; &a + &a;");
    let e = rscc::parser::parse_stmts(&mut p).unwrap_err();
    assert_eq!(e.msg, chars("ポインタ演算は整数型との加算か、ポインタ同士の引き算のみ可能です。"));
    let mut p = parser_for("int a; 1 - &a;");
    let e = rscc::parser::parse_stmts(&mut p).unwrap_err();
    assert_eq!(e.msg, chars("整数型の値からポインタを引くことはできません。"));
    let mut p = parser_for("int a; int b[2][2]; &a - b;");
    let e = rscc::parser::parse_stmts(&mut p).unwrap_err();
    assert!(e.msg.iter().collect::<String>().starts_with("違う型へのポインタ同士の演算はサポートされません。"));
}

#[test]
fn sizeof_of_types() {
    let mut p = parser_for("sizeof(int) sizeof(char)");
    let n = rscc::parser::unary(&mut p).unwrap();
    assert_eq!(n.kind, Nodekind::NumNd);
    assert_eq!(n.val, Some(4));
    assert_eq!(p.token_ptr.pos, 4);
    let n = rscc::parser::unary(&mut p).unwrap();
    assert_eq!(n.val, Some(1));
    let mut p = parser_for("sizeof int");
    assert!(rscc::parser::unary(&mut p).is_err());
}

#[test]
fn prefix_operators() {
    let mut p = parser_for("-x");
    p.globals.push(rscc::parser::GlobalDecl {
        name: chars("x"),
        typ: Some(TypeCell::new(Type::Int)),
        func_typ: None,
        has_stmts: false,
        token: 0,
    });
    let n = rscc::parser::unary(&mut p).unwrap();
    assert_eq!(n.kind, Nodekind::SubNd);
    assert_eq!(n.left.as_ref().unwrap().val, Some(0));
    assert_eq!(n.right.as_ref().unwrap().kind, Nodekind::LvarNd);
}

#[test]
fn expressions_read_as_far_as_they_can() {
    let mut p = parser_for("1 + 2 * 3 << 1 < 4 == 1 && 2 || 3 ) ;");
    let _ = rscc::parser::expr(&mut p).unwrap();
    assert_eq!(p.token_ptr.tokens[p.token_ptr.pos].body, Some(chars(")")));
    let mut p = parser_for("1 == 2 == 3");
    let n = rscc::parser::equality(&mut p).unwrap();
    assert_eq!(n.kind, Nodekind::EqNd);
    assert_eq!(p.token_ptr.tokens[p.token_ptr.pos].body, Some(chars("==")));
}

#[test]
fn variables_and_literals_in_expressions() {
    let mut p = parser_for("int a; a; \"abc\";");
    let stmts = rscc::parser::parse_stmts(&mut p).unwrap();
    let v = &stmts[1];
    assert_eq!(v.kind, Nodekind::LvarNd);
    assert!(v.is_local);
    assert_eq!(v.offset, Some(8));
    let s = &stmts[2];
    assert_eq!(s.kind, Nodekind::LvarNd);
    assert!(!s.is_local);
    assert_eq!(s.name, Some(chars(".LC0")));
    let t = s.typ.as_ref().unwrap();
    assert_eq!(t.typ, Type::Array);
    assert_eq!(t.array_size, Some(4));
    assert_eq!(p.literals[0].body, chars("abc"));
}

#[test]
fn functions_always_return() {
    let mut p = parser_for("int f() { 1; }");
    let g = rscc::parser::global(&mut p).unwrap();
    let stmts = g.stmts.unwrap();
    assert_eq!(stmts.len(), 2);
    assert_eq!(stmts[1].kind, Nodekind::ReturnNd);
    assert_eq!(stmts[1].left.as_ref().unwrap().val, Some(0));
    assert_eq!(g.max_offset, Some(0));
    let mut p = parser_for("int g() { char c; return c; }");
    let g = rscc::parser::global(&mut p).unwrap();
    assert_eq!(g.stmts.unwrap().len(), 2);
    assert_eq!(g.max_offset, Some(8));
}

#[test]
fn globals_are_declared_once() {
    let mut p = parser_for("int f(int); int f(int a) { return a; } int x;");
    let _ = rscc::parser::program(&mut p).unwrap();
    assert_eq!(p.globals.len(), 2);
    assert_eq!(p.globals[0].name, chars("f"));
    assert!(p.globals[0].has_stmts);
    assert_eq!(p.globals[1].name, chars("x"));
    let mut p = parser_for("int x; int x(int a) { return a; }");
    assert!(rscc::parser::program(&mut p).is_err());
}

#[test]
fn array_suffixes() {
    let int = TypeCell::new(Type::Int);
    let mut p = parser_for("2][3] ;");
    let (t, open) = rscc::parser::array_suffix(&mut p, int.copy()).unwrap();
    assert!(!open);
    assert_eq!(t.array_size, Some(2));
    assert_eq!(t.ptr_to.as_ref().unwrap().array_size, Some(3));
    assert_eq!(t.bytes(), 24);
    assert_eq!(p.token_ptr.pos, 5);
    let mut p = parser_for("][4] ;");
    let (t, open) = rscc::parser::array_suffix(&mut p, int.copy()).unwrap();
    assert!(open);
    assert_eq!(t.array_size, None);
    assert_eq!(t.ptr_to.as_ref().unwrap().array_size, Some(4));
    assert_eq!(p.token_ptr.pos, 4);
    let mut p = parser_for("2][] ;");
    assert!(rscc::parser::array_suffix(&mut p, int.copy()).is_err());
    let mut p = parser_for("-1] ;");
    assert!(rscc::parser::array_suffix(&mut p, int.copy()).is_err());
}

#[test]
fn local_declarations() {
    let mut p = parser_for("a[3]; b;");
    let n = rscc::parser::lvar_decl(&mut p, TypeCell::new(Type::Char)).unwrap();
    assert_eq!(n.kind, Nodekind::NopNd);
    assert_eq!(p.locals.len(), 1);
    assert_eq!(p.locals[0].name, chars("a"));
    assert_eq!(p.locals[0].offset, 8);
    assert_eq!(p.locals[0].typ.array_size, Some(3));
    assert_eq!(p.token_ptr.pos, 4);
    let mut p = parser_for("int a; int a;");
    let e = rscc::parser::parse_stmts(&mut p).unwrap_err();
    assert_eq!(e.msg, chars("既に宣言された変数です。"));
    let mut p = parser_for("int a[];");
    let e = rscc::parser::parse_stmts(&mut p).unwrap_err();
    assert_eq!(e.msg, chars("初期化しない場合は完全な配列サイズが必要です。"));
}

#[test]
fn initializers_store_inside_the_variable() {
    let mut p = parser_for("int a[2][3] = {{1, 2, 3}, {4, 0, 6}}; char s[4] = \"ab\"; int x = 5; int y = 0;");
    let stmts = rscc::parser::parse_stmts(&mut p).unwrap();
    fn collect(n: &Node, out: &mut Vec<(usize, Type)>) {
        match n.kind {
            Nodekind::CommaNd => {
                collect(n.left.as_ref().unwrap(), out);
                collect(n.right.as_ref().unwrap(), out);
            },
            Nodekind::AssignNd => {
                let l = n.left.as_ref().unwrap();
                out.push((l.offset.unwrap(), l.typ.as_ref().unwrap().typ));
            },
            _ => {},
        }
    }
    let a = &p.locals[0];
    assert_eq!(a.size, 24);
    let init = &stmts[0];
    assert_eq!(init.kind, Nodekind::CommaNd);
    assert_eq!(init.left.as_ref().unwrap().kind, Nodekind::ZeroClrNd);
    let mut stores = Vec::new();
    collect(init.right.as_ref().unwrap(), &mut stores);
    assert_eq!(stores.len(), 5);
    for (o, t) in &stores {
        assert_eq!(*t, Type::Int);
        assert!(*o <= a.offset && *o - 4 >= a.offset - a.size);
    }
    let mut s_stores = Vec::new();
    collect(stmts[1].right.as_ref().unwrap(), &mut s_stores);
    assert_eq!(s_stores.len(), 2);
    let x = &stmts[2];
    assert_eq!(x.kind, Nodekind::AssignNd);
    assert_eq!(x.left.as_ref().unwrap().offset, Some(p.locals[2].offset));
    assert_eq!(stmts[3].kind, Nodekind::NopNd);
}

#[test]
fn type_equality_is_symmetric_and_transitive() {
    let int = TypeCell::new(Type::Int);
    let ch = TypeCell::new(Type::Char);
    let types = vec![
        int.copy(),
        ch.copy(),
        int.make_ptr_to(),
        ch.make_ptr_to(),
        int.make_array_of(2),
        int.make_ptr_to().make_ptr_to(),
    ];
    for a in &types {
        for b in &types {
            assert_eq!(type_cell_eq(a, b), type_cell_eq(b, a));
            for c in &types {
                if type_cell_eq(a, b) && type_cell_eq(b, c) {
                    assert!(type_cell_eq(a, c));
                }
            }
        }
    }
    assert!(!type_cell_eq(&int.make_ptr_to(), &ch.make_ptr_to()));
    assert!(type_cell_eq(&int.make_ptr_to(), &int.make_array_of(3)));
    assert!(type_cell_eq(&int.make_ptr_to(), &int.make_ptr_to()));
    assert!(!type_cell_eq(&int, &ch));
}

#[test]
fn indexing_is_a_dereferenced_sum() {
    let mut p = parser_for("int b[3]; b[1];");
    let stmts = rscc::parser::parse_stmts(&mut p).unwrap();
    let d = &stmts[1];
    assert_eq!(d.kind, Nodekind::DerefNd);
    assert_eq!(d.typ.as_ref().unwrap().typ, Type::Int);
    let s = d.left.as_ref().unwrap();
    assert_eq!(s.kind, Nodekind::AddNd);
    assert_eq!(scaled_number(s.right.as_ref().unwrap()), Some(4));
}

#[test]
fn statements_end_at_a_semicolon_or_a_brace() {
    let sources = [
        "a = 1; x",
        "{ a = 1; } x",
        "if (a) a = 2; else { a = 3; } x",
        "while (a) { a = a - 1; } x",
        "for (;;) ; x",
        "return; x",
        "int b; x",
        "; x",
    ];
    for src in sources {
        let mut p = parser_for(&format!("int a; {}", src));
        rscc::parser::stmt(&mut p).unwrap();
        rscc::parser::stmt(&mut p).unwrap();
        let pos = p.token_ptr.pos;
        let before = &p.token_ptr.tokens[pos - 1];
        assert_eq!(before.kind, Tokenkind::Reserved);
        let body: String = before.body.as_ref().unwrap().iter().collect();
        assert!(body == ";" || body == "}", "{} ends at {}", src, body);
        let next: String = p.token_ptr.tokens[pos].body.as_ref().unwrap().iter().collect();
        assert_eq!(next, "x");
    }
}

#[test]
fn calls_pass_as_many_arguments_as_declared() {
    let ok = compile("int f(int a, int b) { return a + b; } int main() { return f(1, 2); }");
    assert!(ok.is_ok());
    let e = compile("int f(int a, int b) { return a + b; } int main() { return f(1); }").unwrap_err();
    assert!(e.contains("の引数は2個で宣言されていますが、1個が渡されました。"), "{}", e);
}

#[test]
fn undeclared_functions_take_the_argument_types() {
    let mut p = parser_for("char c; g(c, 1);");
    let stmts = rscc::parser::parse_stmts(&mut p).unwrap();
    let call = &stmts[1];
    assert_eq!(call.kind, Nodekind::FunCallNd);
    assert_eq!(call.args.len(), 2);
    let f = call.func_typ.as_ref().unwrap();
    assert_eq!(f.typ, Type::Func);
    assert_eq!(f.ret_typ.as_ref().unwrap().typ, Type::Int);
    assert_eq!(f.arg_typs.as_ref().unwrap().count(), 2);
    assert_eq!(call.args[0].typ.as_ref().unwrap().typ, Type::Char);
    assert_eq!(call.args[1].typ.as_ref().unwrap().typ, Type::Int);
}

#[test]
fn parsing_forgets_nothing_declared() {
    let mut p = parser_for("int a; char s[4]; a = 1; \"x\"; { int b; b = 2; } \"y\"; a += 3;");
    let stmts = rscc::parser::parse_stmts(&mut p).unwrap();
    assert_eq!(stmts.len(), 7);
    let names: Vec<String> = p.locals.iter().map(|l| l.name.iter().collect()).collect();
    assert_eq!(&names[0..3], &["a".to_string(), "s".to_string(), "b".to_string()]);
    assert_eq!(p.locals[0].offset, 8);
    assert_eq!(p.locals[1].offset, 16);
    let bodies: Vec<String> = p.literals.iter().map(|l| l.body.iter().collect()).collect();
    assert_eq!(bodies, vec!["x".to_string(), "y".to_string()]);
    assert!(p.lvar_max_offset >= p.locals[2].offset);
}

#[test]
fn global_variables_take_their_array_suffix() {
    let mut p = parser_for("int g[3][2]; char c;");
    let trees = program(&mut p).unwrap();
    let g = trees[0].typ.as_ref().unwrap();
    assert_eq!(g.typ, Type::Array);
    assert_eq!(g.array_size, Some(3));
    let inner = g.ptr_to.as_ref().unwrap();
    assert_eq!(inner.typ, Type::Array);
    assert_eq!(inner.array_size, Some(2));
    assert_eq!(inner.ptr_to.as_ref().unwrap().typ, Type::Int);
    assert_eq!(g.bytes(), 24);
    let c = trees[1].typ.as_ref().unwrap();
    assert_eq!(c.typ, Type::Char);
    assert_eq!(c.array_size, None);
}

#[test]
fn postfix_operators_read_last() {
    let mut p = parser_for("int a; int b[2]; a++ x b[1]-- x");
    rscc::parser::stmt(&mut p).unwrap();
    rscc::parser::stmt(&mut p).unwrap();
    let inc = rscc::parser::tailed(&mut p).unwrap();
    assert_eq!(inc.kind, Nodekind::SubNd);
    assert_eq!(inc.token, Some(p.token_ptr.pos - 1));
    let body: String = p.token_ptr.tokens[p.token_ptr.pos - 1].body.as_ref().unwrap().iter().collect();
    assert_eq!(body, "++");
    p.token_ptr.pos += 1;
    let dec = rscc::parser::tailed(&mut p).unwrap();
    assert_eq!(dec.kind, Nodekind::AddNd);
    assert_eq!(dec.token, Some(p.token_ptr.pos - 1));
    let body: String = p.token_ptr.tokens[p.token_ptr.pos - 1].body.as_ref().unwrap().iter().collect();
    assert_eq!(body, "--");
}

#[test]
fn parameters_have_their_declared_types() {
    let mut p = parser_for("int a, char b, int c)");
    let (args, typs) = rscc::parser::func_args(&mut p).unwrap();
    assert_eq!(args.len(), 3);
    assert_eq!(typs.count(), 3);
    let kinds: Vec<Type> = args.iter().map(|a| a.typ.as_ref().unwrap().typ).collect();
    assert_eq!(kinds, vec![Type::Int, Type::Char, Type::Int]);
    assert!(args.iter().all(|a| a.is_local && a.kind == Nodekind::LvarNd));
    let mut q = parser_for("int, char)");
    let (unnamed, typs) = rscc::parser::func_args(&mut q).unwrap();
    assert_eq!(unnamed.len(), 0);
    assert_eq!(typs.count(), 2);
}

fn form(n: &Node, p: &Parser) -> String {
    if n.kind == Nodekind::CastNd {
        return form(n.left.as_ref().unwrap(), p);
    }
    match (&n.left, &n.right) {
        (Some(l), Some(r)) => format!("({:?} {} {})", n.kind, form(l, p), form(r, p)),
        (Some(l), None) => format!("({:?} {})", n.kind, form(l, p)),
        _ => match n.kind {
            Nodekind::NumNd => format!("{}", n.val.unwrap()),
            Nodekind::LvarNd => p.token_ptr.tokens[n.token.unwrap()].body.as_ref().unwrap().iter().collect(),
            _ => format!("{:?}", n.kind),
        },
    }
}

fn forms(src: &str) -> Vec<String> {
    let mut p = parser_for(&format!("int a; int b; int c; {}", src));
    let stmts = rscc::parser::parse_stmts(&mut p).unwrap();
    stmts[3..].iter().map(|s| form(s, &p)).collect()
}

#[test]
fn operators_group_by_precedence_and_associativity() {
    assert_eq!(forms("1 - 2 - 3;"), vec!["(SubNd (SubNd 1 2) 3)"]);
    assert_eq!(forms("1 + 2 * 3;"), vec!["(AddNd 1 (MulNd 2 3))"]);
    assert_eq!(forms("(1 + 2) * 3;"), vec!["(MulNd (AddNd 1 2) 3)"]);
    assert_eq!(forms("8 / 4 % 3;"), vec!["(ModNd (DivNd 8 4) 3)"]);
    assert_eq!(forms("1 << 2 + 3;"), vec!["(LShiftNd 1 (AddNd 2 3))"]);
    assert_eq!(forms("a == b < c;"), vec!["(EqNd a (LThanNd b c))"]);
    assert_eq!(
        forms("1 || 2 && 3 | 4 ^ 5 & 6;"),
        vec!["(LogOrNd 1 (LogAndNd 2 (BitOrNd 3 (BitXorNd 4 (BitAndNd 5 6)))))"]
    );
    assert_eq!(forms("a = b = 1;"), vec!["(AssignNd a (AssignNd b 1))"]);
    assert_eq!(forms("1, 2, 3;"), vec!["(CommaNd 1 (CommaNd 2 3))"]);
    assert_eq!(forms("-a * !b;"), vec!["(MulNd (SubNd 0 a) (LogNotNd b))"]);
}

#[test]
fn greater_than_swaps_its_operands() {
    assert_eq!(forms("a > b;"), vec!["(LThanNd b a)"]);
    assert_eq!(forms("a >= b;"), vec!["(LEqNd b a)"]);
    assert_eq!(forms("a < b > c;"), vec!["(LThanNd c (LThanNd a b))"]);
}

#[test]
fn pointer_sums_scale_the_integer_side() {
    let mut p = parser_for("int x[4]; 1 + &x[0]; &x[0] + 1;");
    let stmts = rscc::parser::parse_stmts(&mut p).unwrap();
    let left_int = form(&stmts[1], &p);
    let right_int = form(&stmts[2], &p);
    assert!(left_int.starts_with("(AddNd (AddrNd"), "{}", left_int);
    assert!(left_int.ends_with("(MulNd 4 1))"), "{}", left_int);
    assert_eq!(left_int, right_int);
}

#[test]
fn calls_and_subscripts_are_primaries() {
    let mut p = parser_for("int x[2][3]; f(1) * g(2, 3); x[1][2] - 1; sizeof x[1] + 1;");
    let stmts = rscc::parser::parse_stmts(&mut p).unwrap();
    assert_eq!(form(&stmts[1], &p), "(MulNd FunCallNd FunCallNd)");
    assert_eq!(
        form(&stmts[2], &p),
        "(SubNd (DerefNd (AddNd (DerefNd (AddNd x (MulNd 12 1))) (MulNd 4 2))) 1)"
    );
    assert_eq!(form(&stmts[3], &p), "(AddNd 12 1)");
}

#[test]
fn simple_statements_succeed() {
    let mut p = parser_for("int a; {} if (a) ; while (1) ; for (;;) ; a++; ++a; int b[2] = {7}; a;");
    let stmts = rscc::parser::parse_stmts(&mut p).unwrap();
    assert_eq!(stmts.len(), 9);
    assert_eq!(stmts[1].kind, Nodekind::BlockNd);
    assert_eq!(stmts[2].kind, Nodekind::IfNd);
    assert_eq!(stmts[3].kind, Nodekind::WhileNd);
    assert_eq!(stmts[4].kind, Nodekind::ForNd);
    assert_eq!(stmts[5].kind, Nodekind::SubNd);
    assert_eq!(stmts[6].kind, Nodekind::CommaNd);
    assert_eq!(stmts[8].kind, Nodekind::LvarNd);
    let mut q = parser_for("");
    assert_eq!(program(&mut q).unwrap().len(), 0);
}

#[test]
fn logical_or_of_zeros_is_zero() {
    let out = compile("int main() { return 0 || 0; }").unwrap();
    assert!(out.contains("\tjne .LLogic.False0\n\tmov rax, 0\n\tjmp .LLogic.End0\n.LLogic.False0:\n\tmov rax, 1\n"), "{}", out);
    let out = compile("int main() { return 1 && 1; }").unwrap();
    assert!(out.contains("\tje .LLogic.False0\n\tmov rax, 1\n\tjmp .LLogic.End0\n.LLogic.False0:\n\tmov rax, 0\n"), "{}", out);
}

#[test]
fn every_local_is_eight_byte_aligned() {
    let mut p = parser_for("int x; int y; char c; x;");
    rscc::parser::parse_stmts(&mut p).unwrap();
    let offsets: Vec<usize> = p.locals.iter().map(|l| l.offset).collect();
    assert_eq!(offsets, vec![8, 16, 24]);
}

#[test]
fn fourth_int_argument_goes_to_ecx() {
    let out = compile("int f(int a, int b, int c, int d) { return d; } int main() { return f(1, 2, 3, 4); }").unwrap();
    assert!(out.contains("ecx"), "{}", out);
    assert!(!out.contains("rcx, eax") && !out.contains("], rcx"), "{}", out);
}

#[test]
fn pointers_of_different_types_do_not_subtract() {
    let e = compile("int main() { int a; char b; return &a - &b; }").unwrap_err();
    assert!(e.contains("違う型へのポインタ同士の演算"), "{}", e);
    assert!(compile("int main() { int a; int b; return &a - &b; }").is_ok());
}

#[test]
fn literal_tokens_end_where_the_literal_ends() {
    let code = lines("\"abc\"; 'a';");
    let toks = tokenize(&code, 0).unwrap();
    let s = &toks.tokens[0];
    assert_eq!(s.kind, Tokenkind::String);
    assert_eq!(s.line_offset, 5);
    assert!(s.line_offset >= s.len);
    let c = &toks.tokens[2];
    assert_eq!(c.kind, Tokenkind::Num);
    assert_eq!(c.line_offset, 10);
}

#[test]
fn compile_runs_the_three_stages() {
    let code = lines("int main() { return 1 + 2; }");
    let text: String = rscc::compiler::compile(&code).unwrap().iter().collect();
    assert!(text.starts_with("\t.intel_syntax noprefix\n"));
    assert!(text.ends_with(&compile("int main() { return 1 + 2; }").unwrap()));
    assert!(text.contains("main:"));
    let bad = lines("int main() { return $; }");
    assert!(rscc::compiler::compile(&bad).is_err());
}

#[test]
fn comma_lists_group_to_the_right() {
    let mut p = parser_for("1, 2, 3;");
    let n = rscc::parser::expr(&mut p).unwrap();
    assert_eq!(n.kind, Nodekind::CommaNd);
    assert_eq!(n.left.as_ref().unwrap().val, Some(1));
    let r = n.right.as_ref().unwrap();
    assert_eq!(r.kind, Nodekind::CommaNd);
    assert_eq!(r.left.as_ref().unwrap().val, Some(2));
    assert_eq!(r.right.as_ref().unwrap().val, Some(3));
    assert_eq!(p.token_ptr.pos, 5);
    let mut p = parser_for("1, 2, 3;");
    let s = rscc::parser::stmt(&mut p).unwrap();
    assert_eq!(s.kind, Nodekind::CommaNd);
    assert_eq!(p.token_ptr.pos, 6);
}

#[test]
fn sizeof_of_a_variable_is_the_size_of_its_type() {
    let mut p = parser_for("sizeof x;");
    p.globals.push(rscc::parser::GlobalDecl {
        name: chars("x"),
        typ: Some(TypeCell::new(Type::Int).make_array_of(6000)),
        func_typ: None,
        has_stmts: false,
        token: 0,
    });
    let n = rscc::parser::unary(&mut p).unwrap();
    assert_eq!(n.kind, Nodekind::NumNd);
    assert_eq!(n.val, Some(24000));
    assert_eq!(p.token_ptr.pos, 2);
    let mut p = parser_for("int c; char d; sizeof c; sizeof d;");
    let stmts = rscc::parser::parse_stmts(&mut p).unwrap();
    assert_eq!(stmts[2].val, Some(4));
    assert_eq!(stmts[3].val, Some(1));
}

#[test]
fn function_of_number_statements() {
    let mut p = parser_for("int main() { 1; 2; }");
    let n = rscc::parser::global(&mut p).unwrap();
    assert_eq!(n.kind, Nodekind::GlobalNd);
    assert!(n.args.is_empty());
    let stmts = n.stmts.as_ref().unwrap();
    assert_eq!(stmts.len(), 3);
    assert_eq!(stmts[0].val, Some(1));
    assert_eq!(stmts[1].val, Some(2));
    assert_eq!(stmts[2].kind, Nodekind::ReturnNd);
    assert_eq!(stmts[2].left.as_ref().unwrap().val, Some(0));
    assert_eq!(n.max_offset, Some(0));
    assert_eq!(p.token_ptr.pos, 10);
}

#[test]
fn declarations_are_read_in_source_order() {
    let code = lines("int a; int f() { return 1; } char b[2]; int g();");
    let token_ptr = tokenize(&code, 0).unwrap();
    let (trees, _, _) = parse(token_ptr).unwrap();
    let names: Vec<String> = trees.iter().map(|t| t.name.as_ref().unwrap().iter().collect()).collect();
    assert_eq!(names, vec!["a", "f", "b", "g"]);
}

#[test]
fn simple_control_statements_have_their_parts() {
    let mut p = parser_for("if (1) ; x");
    let n = rscc::parser::stmt(&mut p).unwrap();
    assert_eq!(n.kind, Nodekind::IfNd);
    assert_eq!(n.enter.as_ref().unwrap().val, Some(1));
    assert_eq!(n.branch.as_ref().unwrap().kind, Nodekind::NumNd);
    assert_eq!(n.branch.as_ref().unwrap().val, Some(0));
    assert!(n.els.is_none() && n.init.is_none() && n.routine.is_none());
    assert_eq!(p.token_ptr.pos, 5);
    let mut p = parser_for("while (7) ;");
    let n = rscc::parser::stmt(&mut p).unwrap();
    assert_eq!(n.kind, Nodekind::WhileNd);
    assert_eq!(n.enter.as_ref().unwrap().val, Some(7));
    assert_eq!(n.branch.as_ref().unwrap().val, Some(0));
    assert!(n.els.is_none() && n.init.is_none() && n.routine.is_none());
    let mut p = parser_for("for (;;) ;");
    let n = rscc::parser::stmt(&mut p).unwrap();
    assert_eq!(n.kind, Nodekind::ForNd);
    assert!(n.init.is_none() && n.enter.is_none() && n.routine.is_none() && n.els.is_none());
    assert_eq!(n.branch.as_ref().unwrap().val, Some(0));
    assert_eq!(p.token_ptr.pos, 6);
}

#[test]
fn subtraction_groups_to_the_left() {
    let mut p = parser_for("1-2-3;");
    let n = rscc::parser::add(&mut p).unwrap();
    assert_eq!(n.kind, Nodekind::SubNd);
    assert_eq!(n.right.as_ref().unwrap().val, Some(3));
    assert_eq!(n.left.as_ref().unwrap().kind, Nodekind::SubNd);
    assert_eq!(p.token_ptr.pos, 5);
}

#[test]
fn a_function_of_number_statements_is_a_program() {
    let code = lines("int main() { 1; 2; 3; }");
    let token_ptr = tokenize(&code, 0).unwrap();
    let (trees, literals, _) = parse(token_ptr).unwrap();
    assert_eq!(trees.len(), 1);
    assert!(literals.is_empty());
    assert_eq!(trees[0].stmts.as_ref().unwrap().len(), 4);
}

#[test]
fn sums_of_numbers_are_integers() {
    let mut p = parser_for("1+2-3+4;");
    let n = rscc::parser::add(&mut p).unwrap();
    assert_eq!(n.kind, Nodekind::AddNd);
    assert_eq!(p.token_ptr.pos, 7);
}
