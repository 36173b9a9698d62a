use rush::parser::{parse, CommandLine, Param, ParseError};
use rush::tokenizer::tokenize;
use rush::tokenizer::Token;

fn render(cl: &CommandLine) -> String {
    let parts: Vec<String> = cl
        .params
        .iter()
        .map(|p| match p {
            Param::Arg(w) => format!("{:?}", w),
            Param::SubCommand(inner) => format!("({})", render(inner)),
        })
        .collect();
    parts.join(" ")
}

fn spell(cl: &CommandLine, out: &mut Vec<String>) {
    for p in &cl.params {
        match p {
            Param::Arg(w) => out.push(format!("w:{}", w)),
            Param::SubCommand(inner) => {
                out.push("(".to_string());
                spell(inner, out);
                out.push(")".to_string());
            }
        }
    }
}

fn token_names(ts: &[Token]) -> Vec<String> {
    ts.iter()
        .map(|t| match t {
            Token::LeftParen => "(".to_string(),
            Token::RightParen => ")".to_string(),
            Token::Word(w) => format!("w:{}", w),
        })
        .collect()
}

fn parse_line(line: &str) -> Result<String, ParseError> {
    let tokens = tokenize(line).unwrap();
    parse(&tokens).map(|cl| render(&cl))
}

#[test]
fn empty_parentheses_are_rejected() {
    assert_eq!(parse_line("()"), Err(ParseError::UnexpectedRightParen));
    assert_eq!(parse_line("echo ()"), Err(ParseError::UnexpectedRightParen));
    assert_eq!(parse_line(")"), Err(ParseError::UnexpectedRightParen));
}

#[test]
fn triply_nested_subcommand() {
    assert_eq!(
        parse_line("(((echo lol))) stuff"),
        Ok("(((\"echo\" \"lol\"))) \"stuff\"".to_string())
    );
    let tokens = tokenize("(((echo lol))) stuff").unwrap();
    let cl = parse(&tokens).unwrap();
    assert_eq!(cl.params.len(), 2);
    match &cl.params[1] {
        Param::Arg(w) => assert_eq!(*w, "stuff"),
        Param::SubCommand(_) => panic!("second element must be a word"),
    }
}

#[test]
fn empty_line_is_rejected() {
    assert_eq!(parse_line(""), Err(ParseError::EmptyCommandLine));
    assert_eq!(parse_line("   "), Err(ParseError::EmptyCommandLine));
}

#[test]
fn unbalanced_parentheses_are_rejected() {
    assert_eq!(parse_line("echo (pwd"), Err(ParseError::UnterminatedSubcommand));
    assert_eq!(parse_line("echo ("), Err(ParseError::UnterminatedSubcommand));
    assert_eq!(parse_line("garbage)"), Err(ParseError::UnterminatedSubcommand));
    assert_eq!(parse_line("a (b) c) d"), Err(ParseError::UnterminatedSubcommand));
}

#[test]
fn words_and_subcommands_keep_their_order() {
    assert_eq!(
        parse_line("echo (a b) c (d (e))"),
        Ok("\"echo\" (\"a\" \"b\") \"c\" (\"d\" (\"e\"))".to_string())
    );
    assert_eq!(parse_line("'' x"), Ok("\"\" \"x\"".to_string()));
}

#[test]
fn tree_spells_the_tokens_it_came_from() {
    for line in ["echo (a b) c", "(((echo lol))) stuff", "x (y (z w) v) 'q r'"] {
        let tokens = tokenize(line).unwrap();
        let cl = parse(&tokens).unwrap();
        let mut spelled = Vec::new();
        spell(&cl, &mut spelled);
        assert_eq!(spelled, token_names(&tokens));
    }
}

fn write_out(cl: &CommandLine) -> String {
    let parts: Vec<String> = cl
        .params
        .iter()
        .map(|p| match p {
            Param::Arg(w) => w.to_string(),
            Param::SubCommand(inner) => format!("({})", write_out(inner)),
        })
        .collect();
    parts.join(" ")
}

#[test]
fn written_out_tree_reads_back_the_same() {
    for line in ["echo (a b) c", "(((echo lol))) stuff", "x (y (z w) v) q"] {
        let tokens = tokenize(line).unwrap();
        let cl = parse(&tokens).unwrap();
        let again = write_out(&cl);
        assert_eq!(again, line);
        let tokens2 = tokenize(&again).unwrap();
        let cl2 = parse(&tokens2).unwrap();
        assert_eq!(render(&cl2), render(&cl));
    }
}
