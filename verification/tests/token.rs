use rscc::token::{token_text, Token, Tokenkind};

#[test]
fn token_display() {
    let tokens = vec![Token::new(Tokenkind::Ident, "test".chars().collect(), 0, 0, 0)];
    println!("{}", token_text(&tokens, 0).iter().collect::<String>());
}
