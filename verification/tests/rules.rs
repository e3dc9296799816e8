use lexer::tokenize::{TokenKind, Tokenizer};

fn is_symbol(c: char) -> bool {
    "+-*/()><=;".contains(c)
}

fn run(chars: &[char], from: usize, class: fn(char) -> bool) -> usize {
    let mut to = from;
    while to < chars.len() && class(chars[to]) {
        to += 1;
    }
    to
}

fn expected(input: &str) -> Result<Vec<(TokenKind, String)>, (char, usize)> {
    let chars: Vec<char> = input.chars().collect();
    let mut tokens = Vec::new();
    let mut at = 0;
    while at < chars.len() {
        let c = chars[at];
        let to;
        let kind;
        if at + 1 < chars.len() && "=!><".contains(c) && chars[at + 1] == '=' {
            to = at + 2;
            kind = Some(TokenKind::Reserved);
        } else if is_symbol(c) {
            to = at + 1;
            kind = Some(TokenKind::Reserved);
        } else if c == ' ' {
            to = run(&chars, at, |c| c == ' ');
            kind = None;
        } else if c.is_ascii_lowercase() {
            to = run(&chars, at, |c| c.is_ascii_lowercase());
            let word: String = chars[at..to].iter().collect();
            kind = Some(if word == "return" { TokenKind::RETURN } else { TokenKind::IDENT });
        } else if c.is_ascii_digit() {
            to = run(&chars, at, |c| c.is_ascii_digit());
            kind = Some(TokenKind::NUM);
        } else {
            return Err((c, at));
        }
        if let Some(kind) = kind {
            tokens.push((kind, chars[at..to].iter().collect()));
        }
        at = to;
    }
    tokens.push((TokenKind::EOF, "\0".to_string()));
    Ok(tokens)
}

fn actual(input: &str) -> Result<Vec<(TokenKind, String)>, (char, usize)> {
    match Tokenizer::new().tokenize(input.to_string()) {
        Ok(tokens) => Ok(tokens.into_iter().map(|token| (token.kind, token.string)).collect()),
        Err(error) => {
            assert_eq!(error.line, input);
            Err((error.character, error.column))
        }
    }
}

fn check_all(alphabet: &[char], length: usize) {
    let mut indices = vec![0usize; length];
    loop {
        let input: String = indices.iter().map(|&i| alphabet[i]).collect();
        assert_eq!(actual(&input), expected(&input), "input {:?}", input);
        let mut place = 0;
        while place < length && indices[place] + 1 == alphabet.len() {
            indices[place] = 0;
            place += 1;
        }
        if place == length {
            break;
        }
        indices[place] += 1;
    }
}

#[test]
fn every_short_text_is_read_by_the_rules() {
    let alphabet = ['=', '!', '<', '+', ';', ' ', 'a', 'z', '0', '9', '@', '\t', 'A', 'é', '€'];
    for length in 0..5 {
        check_all(&alphabet, length);
    }
}

#[test]
fn every_text_around_the_keyword_is_read_by_the_rules() {
    let alphabet = ['r', 'e', 't', 'u', 'n', ' '];
    for length in 5..8 {
        check_all(&alphabet, length);
    }
}
