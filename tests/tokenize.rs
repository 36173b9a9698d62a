use rush::tokenizer::Token::{LeftParen, RightParen, Word};
use rush::tokenizer::{tokenize, TokenizeError};

#[test]
fn empty_command() {
    assert_eq!([LeftParen, RightParen], tokenize("()").unwrap().as_slice());
}

#[test]
fn tokenize_proper() {
    assert_eq!(
        [Word("echo"), Word("foo"), LeftParen, Word("bar"), RightParen],
        tokenize("echo foo (bar)").unwrap().as_slice()
    );

    assert_eq!([Word("echo")], tokenize("echo").unwrap().as_slice());

    assert_eq!([Word("echo"), Word("foo")], tokenize("echo foo").unwrap().as_slice());

    assert_eq!(
        [LeftParen, Word("echo"), RightParen, Word("foo")],
        tokenize("(echo) foo").unwrap().as_slice()
    );
    assert_eq!(
        [LeftParen, Word("echo"), Word("echo"), RightParen, Word("foo")],
        tokenize("(echo echo) foo").unwrap().as_slice()
    );
}

#[test]
fn tokenize_string_literal() {
    assert_eq!(
        [Word("echo hole"), Word("stuff")],
        tokenize("'echo hole' stuff").unwrap().as_slice()
    );
    assert_eq!(
        [Word("echo"), Word("foo bar")],
        tokenize("echo 'foo bar'").unwrap().as_slice()
    );
    assert_eq!(
        [Word("echo"), Word("foo"), Word("bar")],
        tokenize("'echo' 'foo' 'bar'").unwrap().as_slice()
    );
    assert_eq!(
        [Word("foo bar               baz"), Word("qux"), Word(" quux")],
        tokenize("'foo bar               baz' qux ' quux'").unwrap().as_slice()
    );
}

#[test]
#[should_panic(expected = "UnclosedQuote")]
fn tokenize_unclosed_string_literal_cmd() {
    tokenize("'echo foo").unwrap();
}

#[test]
#[should_panic(expected = "UnclosedQuote")]
fn tokenize_unclosed_string_literal_arg() {
    tokenize("echo 'foo bar").unwrap();
}

#[test]
#[should_panic(expected = "UnclosedQuote")]
fn tokenize_unclosed_string_literal_end() {
    tokenize("echo '").unwrap();
}

#[test]
fn tokenize_proper_though_not_for_the_parser() {
    assert_eq!(
        [
            LeftParen,
            LeftParen,
            LeftParen,
            Word("echo"),
            Word("lol"),
            RightParen,
            RightParen,
            RightParen,
            Word("stuff")
        ],
        tokenize("(((echo lol))) stuff").unwrap().as_slice()
    );
    assert_eq!([Word("garbage"), RightParen], tokenize("garbage)").unwrap().as_slice());
}

#[test]
#[should_panic(expected = "UnexpectedParenInWord")]
fn tokenize_paren_in_cmd_middle() {
    tokenize("ech(o").unwrap();
}

#[test]
#[should_panic(expected = "UnexpectedParenInWord")]
fn tokenize_paren_in_arg_middle() {
    tokenize("echo oops(typo").unwrap();
}

#[test]
#[should_panic(expected = "UnexpectedParenInWord")]
fn tokenize_paren_in_cmd_end() {
    tokenize("echo( stuff").unwrap();
}

#[test]
#[should_panic(expected = "UnexpectedParenInWord")]
fn tokenize_paren_in_arg_end() {
    tokenize("echo oops(").unwrap();
}

#[test]
fn quoted_word_keeps_parentheses_and_blanks() {
    assert_eq!(
        [Word("a b"), Word("c")],
        tokenize("'a b' c").unwrap().as_slice()
    );
    assert_eq!(
        [Word("echo"), Word("(x) y\t")],
        tokenize("echo '(x) y\t'").unwrap().as_slice()
    );
}

#[test]
fn error_variants_are_exact() {
    assert_eq!(tokenize("echo oops("), Err(TokenizeError::UnexpectedParenInWord));
    assert_eq!(tokenize("echo '"), Err(TokenizeError::UnclosedQuote));
    assert_eq!(tokenize("'"), Err(TokenizeError::UnclosedQuote));
}

#[test]
fn empty_quotes_give_an_empty_word() {
    assert_eq!([Word("echo"), Word(""), Word("x")], tokenize("echo '' x").unwrap().as_slice());
    assert_eq!([Word("")], tokenize("''").unwrap().as_slice());
}

#[test]
fn blank_lines_have_no_tokens() {
    assert!(tokenize("").unwrap().is_empty());
    assert!(tokenize(" \t  ").unwrap().is_empty());
}

#[test]
fn unquoted_word_runs_to_the_end_and_keeps_quotes() {
    assert_eq!([Word("a'b"), Word("c")], tokenize("a'b\tc").unwrap().as_slice());
    assert_eq!(
        [LeftParen, Word("x"), RightParen, RightParen],
        tokenize("(x))").unwrap().as_slice()
    );
}

#[test]
fn non_ascii_words_are_sliced_by_characters() {
    assert_eq!(
        [Word("héllo"), LeftParen, Word("wörld"), RightParen],
        tokenize("héllo (wörld)").unwrap().as_slice()
    );
}
