use monkey_lexer::lexer::Lexer;
use monkey_lexer::token::{Token, TokenType};

#[test]
fn test_next_token() {
    let input: String = String::from("=+(){},;");
    let expected: [Token; 8] = [
        Token { token_type: TokenType::Assign, literal: "=".to_string() },
        Token { token_type: TokenType::Plus, literal: "+".to_string() },
        Token { token_type: TokenType::Lparen, literal: "(".to_string() },
        Token { token_type: TokenType::Rparen, literal: ")".to_string() },
        Token { token_type: TokenType::Lbrace, literal: "{".to_string() },
        Token { token_type: TokenType::Rbrace, literal: "}".to_string() },
        Token { token_type: TokenType::Comma, literal: ",".to_string() },
        Token { token_type: TokenType::Semicolon, literal: ";".to_string() },
    ];

    let mut lexer: Lexer = Lexer::new(input);
    for token in expected {
        let lexed_token = lexer.next_token();
        assert_eq!(lexed_token, token);
    }
}

#[test]
fn test_next_token_ext() {
    let input = "let five = 5;";
    let expected = [
        Token { token_type: TokenType::Let, literal: "let".to_string() },
        Token { token_type: TokenType::Ident, literal: "five".to_string() },
        Token { token_type: TokenType::Assign, literal: "=".to_string() },
        Token { token_type: TokenType::Int, literal: "5".to_string() },
        Token { token_type: TokenType::Semicolon, literal: ";".to_string() },
    ];
    let mut lexer: Lexer = Lexer::new(input.to_string());
    for token in expected {
        let lexed_token = lexer.next_token();
        assert_eq!(lexed_token, token);
    }
}

#[test]
fn test_next_token_ext_2() {
    let input = "
        let five = 5;
        let ten = 10;

        let add = fn(x, y){
            x+y;
        };
        
        let result = add(five, ten);
        ";
    let expected = [
        Token { token_type: TokenType::Let, literal: "let".to_string() },
        Token { token_type: TokenType::Ident, literal: "five".to_string() },
        Token { token_type: TokenType::Assign, literal: "=".to_string() },
        Token { token_type: TokenType::Int, literal: "5".to_string() },
        Token { token_type: TokenType::Semicolon, literal: ";".to_string() },
        Token { token_type: TokenType::Let, literal: "let".to_string() },
        Token { token_type: TokenType::Ident, literal: "ten".to_string() },
        Token { token_type: TokenType::Assign, literal: "=".to_string() },
        Token { token_type: TokenType::Int, literal: "10".to_string() },
        Token { token_type: TokenType::Semicolon, literal: ";".to_string() },
        Token { token_type: TokenType::Let, literal: "let".to_string() },
        Token { token_type: TokenType::Ident, literal: "add".to_string() },
        Token { token_type: TokenType::Assign, literal: "=".to_string() },
        Token { token_type: TokenType::Function, literal: "fn".to_string() },
        Token { token_type: TokenType::Lparen, literal: "(".to_string() },
        Token { token_type: TokenType::Ident, literal: "x".to_string() },
        Token { token_type: TokenType::Comma, literal: ",".to_string() },
        Token { token_type: TokenType::Ident, literal: "y".to_string() },
        Token { token_type: TokenType::Rparen, literal: ")".to_string() },
        Token { token_type: TokenType::Lbrace, literal: "{".to_string() },
        Token { token_type: TokenType::Ident, literal: "x".to_string() },
        Token { token_type: TokenType::Plus, literal: "+".to_string() },
        Token { token_type: TokenType::Ident, literal: "y".to_string() },
        Token { token_type: TokenType::Semicolon, literal: ";".to_string() },
        Token { token_type: TokenType::Rbrace, literal: "}".to_string() },
        Token { token_type: TokenType::Semicolon, literal: ";".to_string() },
        Token { token_type: TokenType::Let, literal: "let".to_string() },
        Token { token_type: TokenType::Ident, literal: "result".to_string() },
        Token { token_type: TokenType::Assign, literal: "=".to_string() },
        Token { token_type: TokenType::Ident, literal: "add".to_string() },
        Token { token_type: TokenType::Lparen, literal: "(".to_string() },
        Token { token_type: TokenType::Ident, literal: "five".to_string() },
        Token { token_type: TokenType::Comma, literal: ",".to_string() },
        Token { token_type: TokenType::Ident, literal: "ten".to_string() },
        Token { token_type: TokenType::Rparen, literal: ")".to_string() },
        Token { token_type: TokenType::Semicolon, literal: ";".to_string() },
        Token { token_type: TokenType::Eof, literal: "".to_string() },
    ];

    let mut lexer: Lexer = Lexer::new(input.to_string());
    for token in expected {
        let lexed_token = lexer.next_token();
        assert_eq!(lexed_token, token);
    }
}

#[test]
fn extended_tokens() {
    let input = "
            !-/*5;
            5 < 10 > 5;
        ";
    let expected = [
        Token::new(TokenType::Bang, "!".to_string()),
        Token::new(TokenType::Minus, "-".to_string()),
        Token::new(TokenType::Slash, "/".to_string()),
        Token::new(TokenType::Asterisk, "*".to_string()),
        Token::new(TokenType::Int, "5".to_string()),
        Token::new(TokenType::Semicolon, ";".to_string()),
        Token::new(TokenType::Int, "5".to_string()),
        Token::new(TokenType::Lt, "<".to_string()),
        Token::new(TokenType::Int, "10".to_string()),
        Token::new(TokenType::Gt, ">".to_string()),
        Token::new(TokenType::Int, "5".to_string()),
        Token::new(TokenType::Semicolon, ";".to_string()),
        Token::new(TokenType::Eof, "".to_string()),
    ];
    let mut lexer = Lexer::new(input.to_string());
    for token in expected.iter() {
        let lexed_token = lexer.next_token();
        assert_eq!(lexed_token, *token);
    }
}

#[test]
fn if_else_tokens() {
    let input = "
            if (5 < 10) {
                return true;
            } else {
                return false;
            }
        ";
    let expected = [
        Token::new(TokenType::If, "if".to_string()),
        Token::new(TokenType::Lparen, "(".to_string()),
        Token::new(TokenType::Int, "5".to_string()),
        Token::new(TokenType::Lt, "<".to_string()),
        Token::new(TokenType::Int, "10".to_string()),
        Token::new(TokenType::Rparen, ")".to_string()),
        Token::new(TokenType::Lbrace, "{".to_string()),
        Token::new(TokenType::Return, "return".to_string()),
        Token::new(TokenType::True, "true".to_string()),
        Token::new(TokenType::Semicolon, ";".to_string()),
        Token::new(TokenType::Rbrace, "}".to_string()),
        Token::new(TokenType::Else, "else".to_string()),
        Token::new(TokenType::Lbrace, "{".to_string()),
        Token::new(TokenType::Return, "return".to_string()),
        Token::new(TokenType::False, "false".to_string()),
        Token::new(TokenType::Semicolon, ";".to_string()),
        Token::new(TokenType::Rbrace, "}".to_string()),
        Token::new(TokenType::Eof, "".to_string()),
    ];

    let mut lexer = Lexer::new(input.to_string());

    for token in expected.iter() {
        let lexed_token = lexer.next_token();
        assert_eq!(lexed_token, *token);
    }
}

#[test]
fn equals_not_equals() {
    let input = "
            10 == 10;
            10 != 9;
        ";

    let expected = [
        Token::new(TokenType::Int, "10".to_string()),
        Token::new(TokenType::Eq, "==".to_string()),
        Token::new(TokenType::Int, "10".to_string()),
        Token::new(TokenType::Semicolon, ";".to_string()),
        Token::new(TokenType::Int, "10".to_string()),
        Token::new(TokenType::NotEq, "!=".to_string()),
        Token::new(TokenType::Int, "9".to_string()),
        Token::new(TokenType::Semicolon, ";".to_string()),
        Token::new(TokenType::Eof, "".to_string()),
    ];

    let mut lexer = Lexer::new(input.to_string());

    for token in expected.iter() {
        let lexed_token = lexer.next_token();
        assert_eq!(lexed_token, *token);
    }
}
