use dsasm::error::DSAsmError;
use dsasm::processor::Processor;
use dsasm::tokenizer::Token;

#[test]
fn cursor_walks_and_stops_at_the_end() {
    let mut p = Processor::new(vec!['a', 'b']);
    assert!(p.has_peek());
    assert_eq!(p.len(), 2);
    assert_eq!(p.get_peek(), 0);
    assert_eq!(p.peek(), 'a');
    assert_eq!(*p.at(1), 'b');
    assert_eq!(p.consume(), 'a');
    assert_eq!(p.get_peek(), 1);
    assert!(p.peek_equal('b'));
    assert!(!p.tryconsume('a'));
    assert_eq!(p.get_peek(), 1);
    assert!(p.tryconsume('b'));
    assert!(!p.has_peek());
    // Past the end the cursor reads the blank item and stays.
    assert_eq!(p.peek(), '\0');
    assert_eq!(p.consume(), '\0');
    assert_eq!(p.get_peek(), 2);
    p.set_peek(0);
    assert_eq!(p.consume(), 'a');
    p.set_peek(10);
    assert!(!p.has_peek());
    assert_eq!(p.get_peek(), 10);
}

#[test]
fn require_reads_or_reports() {
    let mut p = Processor::new(vec![Token::Plus, Token::Identifier("n".to_string())]);
    assert_eq!(p.require(Token::Plus).unwrap(), Token::Plus);
    match p.require(Token::Minus) {
        Err(DSAsmError::ProcessorError(m)) => assert_eq!(m, "Expected 'Minus', peek=1 - "),
        other => panic!("unexpected {:?}", other),
    }
    assert_eq!(p.get_peek(), 1);
    assert!(p.peek_equal(Token::Identifier("n".to_string())));
    assert!(!p.peek_equal(Token::Identifier("m".to_string())));
    assert_eq!(p.consume(), Token::Identifier("n".to_string()));
    assert_eq!(p.consume(), Token::Invalid);
    let mut chars = Processor::new(vec!['x']);
    match chars.require('y') {
        Err(DSAsmError::ProcessorError(m)) => assert_eq!(m, "Expected 'y', peek=0 - "),
        other => panic!("unexpected {:?}", other),
    }
}
