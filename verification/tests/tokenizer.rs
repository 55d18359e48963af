use rscc::token::{token_ptr_exceed, Tokenkind, TokenStream};
use rscc::tokenizer::tokenize;

/// The lines of `src` as the compiler reads a file: an empty line 0, then each line with its
/// newline.
fn test_init(src: &str) -> Vec<Vec<char>> {
    let mut code: Vec<Vec<char>> = vec![Vec::new()];
    for line in src.split('\n') {
        let mut l: Vec<char> = line.chars().collect();
        l.push('\n');
        code.push(l);
    }
    code
}

/// Tokenizes `src` and prints every token up to the end of input, which must be reached.
fn print_tokens(src: &str) {
    let code = test_init(src);
    let mut token_ptr: TokenStream = tokenize(&code, 0).unwrap();
    while token_ptr.tokens[token_ptr.pos].kind != Tokenkind::Eof {
        println!("{:?}", token_ptr.tokens[token_ptr.pos]);
        token_ptr_exceed(&mut token_ptr).unwrap();
    }
    assert_eq!(token_ptr.tokens[token_ptr.pos].kind, Tokenkind::Eof);
    println!("{:?}", token_ptr.tokens[token_ptr.pos]);
}

#[test]
fn tokenizer_lvar() {
    let src: &str = "
			int local, local_, local_1, local_a, oops, LOCAL;
			local = -1;
			local_ = 2;
			local_1 = local_a = local;
			oops = 3;
			LOCAL = local * 30;
			local = (100 + 30 / 5 - 99) * (local > local);
			LOCAL + local*local + (LOCAL + local_)* local_1 + oops;
		";
    print_tokens(src);
}

#[test]
fn tokenizer_return_() {
    let src: &str = "
			int a, b, return8, _return;
			a = 1;
			b = a * 8;
			return8 = 9;
			_return = 0;
			return 11;
		";
    print_tokens(src);
}

#[test]
fn tokenizer_ctrl() {
    let src: &str = "
			int i, x, if_, return8;
			for( i = 10; ;  ) i = i + 1;
			x = 20;
			while(i == 0) x = x + 1;
			if_ = 10
			if(if_ >= 0) if_ - 100; else if_ * 100;
			return8 = 10;
			return return8;
		";
    print_tokens(src);
}

#[test]
fn tokenizer_block() {
    let src: &str = "
			int i;
			for( i = 10; ; ) {i = i + 1;}
			{}
			{i = i + 1;}
			return 10;
		";
    print_tokens(src);
}

#[test]
fn tokenizer_addr_deref() {
    let src: &str = "
			int x, y, z;
			x = 4;
			y = &x;
			z = &y;
			return *&**z;
		";
    print_tokens(src);
}

#[test]
fn tokenizer_ops() {
    let src: &str = "
			int x, y, z, w, p;
			x = 1;
			y = 0;
			z = 2;
			if( x || (y && z)) print_helper(x); else return z;
			w = x & y ^ z;
			p = !x;
			return ~z;
		";
    print_tokens(src);
}

#[test]
fn tokenizer_ops2() {
    let src: &str = "
			int x, y, z;
			x = 1;
			y = 0;
			z = 2;
			if( x || (y && z)) print_helper(x); else return z;
			w = x & y ^ z;
			p = !x;
			return ~z;
		";
    print_tokens(src);
}

#[test]
fn tokenizer_ops3() {
    let src: &str = "
			int x;
			x = 1;
			x += 1;
			x -= 1;
			x *= 1;
			x /= 1;
			x %= 1;
			x &= 1;
			x ^= 1;
			x |= 1;
			x <<= 1;
			x >>= 1;
			x++;
			x--;
			++x;
			--x;
		";
    print_tokens(src);
}

#[test]
fn tokenizer_sizeof() {
    let src: &str = "
			sizeof x;
			sizeofx;
			sizeof 1;
			sizeof(x+y);
		";
    print_tokens(src);
}

#[test]
fn tokenizer_array() {
    let src: &str = "
			int x[20];
			x[5] = 20;
		";
    print_tokens(src);
}

#[test]
fn char_() {
    let src: &str = "
			char c;
			char c[10];
		";
    print_tokens(src);
}

#[test]
fn str_literal() {
    let src: &str = "
			char *c =
			\"This is a test of string literal\";
		";
    print_tokens(src);
}

#[test]
fn char_literal() {
    let src: &str = "
			char c = \'a\';
			int x = \'ああ\'
		";
    print_tokens(src);
}

#[test]
fn comment() {
    let src: &str = "
			// This is a comment.
			/* block comment
			*/
			int a //*
			// */ b;
			a = 100/*
			*// 5;
		";
    print_tokens(src);
}

/// Tokenizes `src` and checks the kinds of its tokens, in order, up to the end of input.
fn expect_kinds(src: &str, kinds: &[Tokenkind]) {
    let code = test_init(src);
    let mut token_ptr: TokenStream = tokenize(&code, 0).unwrap();
    for (i, kind) in kinds.iter().enumerate() {
        if i > 0 {
            token_ptr_exceed(&mut token_ptr).unwrap();
        }
        assert_eq!(token_ptr.tokens[token_ptr.pos].kind, *kind);
        println!("OK: {:?}", token_ptr.tokens[token_ptr.pos].body);
    }
}

/// Tokenizes `src`, moves past `n` tokens and checks that the end of input is reached.
fn expect_count(src: &str, n: usize) {
    let code = test_init(src);
    let mut token_ptr: TokenStream = tokenize(&code, 0).unwrap();
    for _ in 0..n {
        println!("token: {:?}", token_ptr.tokens[token_ptr.pos].body);
        token_ptr_exceed(&mut token_ptr).unwrap();
    }
    assert_eq!(token_ptr.tokens[token_ptr.pos].kind, Tokenkind::Eof);
}

#[test]
fn tokenizer_display_test_token() {
    println!("\ndisplay_test\n{}", "-".repeat(40));
    print_tokens("1+1-1");
}

#[test]
fn tokenizer_tokenizer_test_1() {
    expect_kinds("1+1-1", &[Tokenkind::Num, Tokenkind::Reserved, Tokenkind::Num, Tokenkind::Reserved, Tokenkind::Num, Tokenkind::Eof]);
}

#[test]
fn tokenizer_tokenizer_test_2() {
    expect_kinds(
        "2*(1+1)-1",
        &[Tokenkind::Num, Tokenkind::Reserved, Tokenkind::Reserved, Tokenkind::Num, Tokenkind::Reserved, Tokenkind::Num, Tokenkind::Reserved, Tokenkind::Reserved, Tokenkind::Num, Tokenkind::Eof],
    );
}

#[test]
fn tokenizer_tokenizer_test_3() {
    expect_kinds(
        "2*(1+1)-1 <= 2",
        &[Tokenkind::Num, Tokenkind::Reserved, Tokenkind::Reserved, Tokenkind::Num, Tokenkind::Reserved, Tokenkind::Num, Tokenkind::Reserved, Tokenkind::Reserved, Tokenkind::Num, Tokenkind::Reserved, Tokenkind::Num, Tokenkind::Eof],
    );
}

#[test]
fn tokenizer_tokenizer_test_4() {
    expect_kinds(
        "a = 1; a + 1;",
        &[Tokenkind::Ident, Tokenkind::Reserved, Tokenkind::Num, Tokenkind::Reserved, Tokenkind::Ident, Tokenkind::Reserved, Tokenkind::Num, Tokenkind::Reserved, Tokenkind::Eof],
    );
}

#[test]
fn tokenizer_tokenizer_test_5() {
    expect_kinds(
        "z = 1; z + 1;",
        &[Tokenkind::Ident, Tokenkind::Reserved, Tokenkind::Num, Tokenkind::Reserved, Tokenkind::Ident, Tokenkind::Reserved, Tokenkind::Num, Tokenkind::Reserved, Tokenkind::Eof],
    );
}

#[test]
fn tokenizer_tokenizer_test_6() {
    expect_kinds(
        "_abc = 1; def + 1; var22 = 22;",
        &[Tokenkind::Ident, Tokenkind::Reserved, Tokenkind::Num, Tokenkind::Reserved, Tokenkind::Ident, Tokenkind::Reserved, Tokenkind::Num, Tokenkind::Reserved, Tokenkind::Ident, Tokenkind::Reserved, Tokenkind::Num, Tokenkind::Reserved, Tokenkind::Eof],
    );
}

#[test]
fn tokenizer_tokenizer_test_7() {
    expect_count(
        "local = -1;
			local_ = 2;
			local_1 = local_a = local;
			oops = 3;
			LOCAL = local * 30;
			local = (100 + 30 / 5 - 99) * (local > local);
			LOCAL + local*local + (LOCAL + local_)* local_1 + oops;",
        59,
    );
}

#[test]
fn tokenizer_test_8() {
    expect_count("a = 1; b = a * 8; return8 = 9; _return = 0; return 11;", 21);
}

#[test]
fn tokenizer_test_9() {
    expect_count("a = 1; b = a * 8; return8 = 9; _return = 0; return 11;", 21);
}

#[test]
fn tokenizer_test_10() {
    print_tokens(
        "
			for( ; ;  ) i = i + 1;
			x = 20;
			while(i == 0) x = x + 1;
			if_ = 10
			if(if_ >= 0) if_ - 100; else if_ * 100;
			return_ = 10;
			return return_;
			",
    );
}
