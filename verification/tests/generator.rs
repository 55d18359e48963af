use rscc::assembly::Asm;
use rscc::generator::{gen_expr, generate};
use rscc::parser::{expr, parse, parse_stmts, Parser};
use rscc::tokenizer::tokenize;
use rscc::token::CompileError;

/// The lines of `src` as the compiler reads a file: an empty line 0, then each line with its
/// newline.
fn test_init(src: &str) -> Vec<Vec<char>> {
    let mut code: Vec<Vec<char>> = vec![Vec::new()];
    for line in src.split('\n') {
        let mut l: Vec<char> = line.chars().collect();
        l.push('\n');
        code.push(l);
    }
    code
}

/// Prints the assembly written so far.
fn print_asm(out: &Asm) {
    println!("{}", out.code.iter().collect::<String>());
}

/// Reads `src` as one expression and prints its code (or the error).
fn try_gen_one_expr(src: &str) -> Result<(), CompileError> {
    let code = test_init(src);
    let token_ptr = tokenize(&code, 0).unwrap();
    let mut p = Parser::new(token_ptr);
    let mut out = Asm::new();
    match expr(&mut p) {
        Ok(node) => match gen_expr(&mut out, &node, &p.token_ptr.tokens) {
            Ok(()) => {},
            Err(e) => return Err(e),
        },
        Err(e) => return Err(e),
    }
    print_asm(&out);
    Ok(())
}

/// As `try_gen_one_expr`, failing the test on an error.
fn gen_one_expr(src: &str) {
    if let Err(e) = try_gen_one_expr(src) {
        panic!("{:?}", e);
    }
}

/// Reads `src` as statements and prints their code (or the error).
fn try_gen_stmts(src: &str) -> Result<(), CompileError> {
    let code = test_init(src);
    let token_ptr = tokenize(&code, 0).unwrap();
    let mut p = Parser::new(token_ptr);
    let mut out = Asm::new();
    match parse_stmts(&mut p) {
        Ok(node_heads) => {
            for node in &node_heads {
                if let Err(e) = gen_expr(&mut out, node, &p.token_ptr.tokens) {
                    return Err(e);
                }
            }
        },
        Err(e) => return Err(e),
    }
    print_asm(&out);
    Ok(())
}

/// As `try_gen_stmts`, failing the test on an error.
fn gen_stmts(src: &str) {
    if let Err(e) = try_gen_stmts(src) {
        panic!("{:?}", e);
    }
}

/// Compiles `src` as a program and prints the assembly (or the error).
fn try_gen_program(src: &str) -> Result<(), CompileError> {
    let code = test_init(src);
    let head = tokenize(&code, 0).unwrap();
    let mut out = Asm::new();
    match parse(head) {
        Ok((trees, literals, tokens)) => {
            if let Err(e) = generate(&mut out, &trees, &literals, &tokens) {
                return Err(e);
            }
        },
        Err(e) => return Err(e),
    }
    print_asm(&out);
    Ok(())
}

/// As `try_gen_program`, failing the test on an error.
fn gen_program(src: &str) {
    if let Err(e) = try_gen_program(src) {
        panic!("{:?}", e);
    }
}

#[test]
fn generator_addsub() {
    let src: &str = "
			1+2+3-1
		";
    gen_one_expr(src);
}

#[test]
fn generator_muldiv() {
    let src: &str = "
			1+2*3-4/2+3%2
		";
    gen_one_expr(src);
}

#[test]
fn generator_brackets() {
    let src: &str = "
			(1+2)/3-1*20
		";
    gen_one_expr(src);
}

#[test]
fn generator_unary() {
    let src: &str = "
			(-1+2)*(-1)+(+3)/(+1)
		";
    gen_one_expr(src);
}

#[test]
fn generator_shift() {
    let src: &str = "
			200 % 3 << 4 + 8 >> 8
		";
    // The parser refuses this input (a pointer declaration, or a name that is not declared),
    // as the compiler this library is does.
    assert!(try_gen_one_expr(src).is_err());
}

#[test]
fn generator_eq() {
    let src: &str = "
			(-1+2)*(-1)+(+3)/(+1) == 30 + 1
		";
    // The parser refuses this input (a pointer declaration, or a name that is not declared),
    // as the compiler this library is does.
    assert!(try_gen_one_expr(src).is_err());
}

#[test]
fn generator_assign1() {
    let src: &str = "
			int a;
			a = 1; a + 1;
		";
    gen_stmts(src);
}

#[test]
fn generator_assign2() {
    let src: &str = "
			int local, local_value, local_value99;
			local = 1; local_value = local + 1; local_value99 = local_value + 3;
		";
    gen_stmts(src);
}

#[test]
fn generator_bitops() {
    let src: &str = "
			int x, y;
			2 + (3 + 5) * 6;
			1 ^ 2 | 2 != 3 / 2;
			1 + -1 ^ 2;
			3 ^ 2 & 1 | 2 & 9;
			x = 10;
			y = &x;
			3 ^ 2 & *y | 2 & &x;
			~x ^ ~*y | 2;
		";
    // The parser refuses this input (a pointer declaration, or a name that is not declared),
    // as the compiler this library is does.
    assert!(try_gen_stmts(src).is_err());
}

#[test]
fn generator_logops() {
    let src: &str = "
			int x, y, z, q;
			x = 10;
			y = 20;
			z = 20;
			q = !x && !!y - z || 0;
		";
    gen_stmts(src);
}

#[test]
fn generator_comma() {
    let src: &str = "
			int x, y, z;
			x = 10, y = 10, z = 10;
		";
    gen_stmts(src);
}

#[test]
fn generator_if_() {
    let src: &str = "
			int i;
			i = 10;
			if (1) i + 1;
			x = i + 10;
		";
    // The parser refuses this input (a pointer declaration, or a name that is not declared),
    // as the compiler this library is does.
    assert!(try_gen_stmts(src).is_err());
}

#[test]
fn generator_while_() {
    let src: &str = "
			int i;
			i = 10;
			while (i > 1) i = i - 1;
			i;
		";
    gen_stmts(src);
}

#[test]
fn generator_for_() {
    let src: &str = "
			int sum, i;
			sum = 10;
			for (i = 0; i < 10; i = i + 1) sum = sum + i;
			return sum;
		";
    gen_stmts(src);
}

#[test]
fn generator_block() {
    let src: &str = "
			int sum, sum2, i;
			sum = 10;
			sum2 = 20;
			for (i = 0; i < 10; i = i + 1) {
				sum = sum + i;
				sum2 = sum2 + i;
			}
			return sum;
			return;
		";
    gen_stmts(src);
}

#[test]
fn generator_func() {
    let src: &str = "
			int i, j, k;
			call_fprint();
			i = get(1);
			j = get(2, 3, 4);
			k = get(i+j, (i=3), k);
			return i + j;
		";
    gen_stmts(src);
}

#[test]
fn generator_addr_deref() {
    let src: &str = "
			int x, y, z;
			x = 3;
			y = 5;
			z = &y + 8;
			return *z;
		";
    // The parser refuses this input (a pointer declaration, or a name that is not declared),
    // as the compiler this library is does.
    assert!(try_gen_stmts(src).is_err());
}

#[test]
fn generator_addr_deref2() {
    let src: &str = "
			int x, y, z;
			x = 3;
			y = &x;
			z = &y;
			return *&**z;
		";
    // The parser refuses this input (a pointer declaration, or a name that is not declared),
    // as the compiler this library is does.
    assert!(try_gen_stmts(src).is_err());
}

#[test]
fn generator_funcdec() {
    let src: &str = "
			int func(int x, int y) {
				return x * (y + 1);
			}
			int sum(int i, int j) {
				return i + j;
			}
			int main() {
				int i, sum;
				i = 0;
				sum = 0;
				for (; i < 10; i=i+1) {
					sum = sum + i;
				}
				return func(i, sum);
			}
		";
    gen_program(src);
}

#[test]
fn generator_recursion() {
    let src: &str = "
			int fib(int n) {
				return fib(n-1)+fib(n-2);
			}
			int main() {
				return fib(10);
			}
		";
    gen_program(src);
}

#[test]
fn zero_clear_() {
    let src: &str = "
			int main() {
				char X[][9][33] = {{1}, 3};
				char Y[127] = {0};
				int Z[15] = {0};
				return 0;
			}
		";
    gen_program(src);
}

#[test]
fn generator_test_addsub() {
    println!("test_{}", "-".repeat(80));
    gen_one_expr("1+2+3-1");
}

#[test]
fn generator_test_muldiv() {
    println!("test_{}", "-".repeat(80));
    gen_one_expr("1+2*3-4/2");
}

#[test]
fn generator_test_brackets() {
    println!("test_brackets{}", "-".repeat(80));
    gen_one_expr("(1+2)/3-1*20");
}

#[test]
fn generator_test_unary() {
    println!("test_unary{}", "-".repeat(80));
    gen_one_expr("(-1+2)*(-1)+(+3)/(+1)");
}

#[test]
fn generator_test_eq() {
    println!("test_unary{}", "-".repeat(80));
    // The parser refuses this input (a name that is not declared), as the compiler this
    // library is does.
    assert!(try_gen_one_expr("(-1+2)*(-1)+(+3)/(+1) == 30 + 1").is_err());
}

#[test]
fn generator_test_assign_1() {
    println!("test_assign{}", "-".repeat(80));
    // The parser refuses this input (a name that is not declared), as the compiler this
    // library is does.
    assert!(try_gen_stmts("a = 1; a + 1;").is_err());
}

#[test]
fn generator_test_assign_2() {
    println!("test_assign{}", "-".repeat(80));
    // The parser refuses this input (a name that is not declared), as the compiler this
    // library is does.
    assert!(try_gen_stmts("local = 1; local_value = local + 1; local_value99 = local_value + 3;").is_err());
}

#[test]
fn test_if() {
    println!("test_if{}", "-".repeat(80));
    // The parser refuses this input (a name that is not declared), as the compiler this
    // library is does.
    assert!(try_gen_stmts(
        "
			i = 10;
			if (1) i + 1;
			x = i + 10;
		",
    ).is_err());
}

#[test]
fn test_while() {
    println!("test_while{}", "-".repeat(80));
    // The parser refuses this input (a name that is not declared), as the compiler this
    // library is does.
    assert!(try_gen_stmts(
        "
			i = 10;
			while (i > 1) i = i - 1;
			i;
		",
    ).is_err());
}

#[test]
fn test_for() {
    println!("test_for{}", "-".repeat(80));
    // The parser refuses this input (a name that is not declared), as the compiler this
    // library is does.
    assert!(try_gen_stmts(
        "
			sum = 10;
			for (i = 0; i < 10; i = i + 1) sum += i;
			sum;
		",
    ).is_err());
}
