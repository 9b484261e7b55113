use pentas::html::tokenizer::{HtmlToken, HtmlTokenizer, is_doctype_keyword};

#[test]
fn test_consume_char() {
    let mut tokenizer = HtmlTokenizer::new("he llo, world!\n");
    assert_eq!(tokenizer.consume_char(), Some('h'));
    assert_eq!(tokenizer.consume_char(), Some('e'));
    assert_eq!(tokenizer.consume_char(), Some(' '));
    assert_eq!(tokenizer.consume_char(), Some('l'));
    assert_eq!(tokenizer.consume_char(), Some('l'));
    assert_eq!(tokenizer.consume_char(), Some('o'));
    assert_eq!(tokenizer.consume_char(), Some(','));
    tokenizer.current_pos -= 1;
    assert_eq!(tokenizer.consume_char(), Some(','));
    assert_eq!(tokenizer.consume_char(), Some(' '));
    assert_eq!(tokenizer.consume_char(), Some('w'));
    assert_eq!(tokenizer.consume_char(), Some('o'));
    assert_eq!(tokenizer.consume_char(), Some('r'));
    assert_eq!(tokenizer.consume_char(), Some('l'));
    tokenizer.current_pos -= 1;
    assert_eq!(tokenizer.consume_char(), Some('l'));
    assert_eq!(tokenizer.consume_char(), Some('d'));
    assert_eq!(tokenizer.consume_char(), Some('!'));
    assert_eq!(tokenizer.consume_char(), Some('\n'));
    assert_eq!(tokenizer.consume_char(), None);
}

#[test]
fn test_peek_input_str() {
    let tokenizer = HtmlTokenizer::new("hello");
    assert_eq!(tokenizer.peek_str(5), "hello");
    assert_eq!(tokenizer.peek_str(3), "hel");
}

#[test]
fn test_consume_token1() {
    let mut tokenizer = HtmlTokenizer::new("<html></html>");
    assert_eq!(
        tokenizer.consume_token(),
        HtmlToken::StartTag {
            tag_name: "html".to_string(),
            attributes: vec![],
            self_closing: false
        }
    );
    assert_eq!(
        tokenizer.consume_token(),
        HtmlToken::EndTag {
            tag_name: "html".to_string(),
            attributes: vec![],
            self_closing: false
        }
    );
    assert_eq!(tokenizer.consume_token(), HtmlToken::Eof);
}

#[test]
fn test_consume_token2() {
    let mut tokenizer = HtmlTokenizer::new("<html><head><title></title></head></html>");
    assert_eq!(
        tokenizer.consume_token(),
        HtmlToken::StartTag {
            tag_name: "html".to_string(),
            attributes: vec![],
            self_closing: false
        }
    );
    assert_eq!(
        tokenizer.consume_token(),
        HtmlToken::StartTag {
            tag_name: "head".to_string(),
            attributes: vec![],
            self_closing: false
        }
    );
    assert_eq!(
        tokenizer.consume_token(),
        HtmlToken::StartTag {
            tag_name: "title".to_string(),
            attributes: vec![],
            self_closing: false
        }
    );
    assert_eq!(
        tokenizer.consume_token(),
        HtmlToken::EndTag {
            tag_name: "title".to_string(),
            attributes: vec![],
            self_closing: false
        }
    );
    assert_eq!(
        tokenizer.consume_token(),
        HtmlToken::EndTag {
            tag_name: "head".to_string(),
            attributes: vec![],
            self_closing: false
        }
    );
    assert_eq!(
        tokenizer.consume_token(),
        HtmlToken::EndTag {
            tag_name: "html".to_string(),
            attributes: vec![],
            self_closing: false
        }
    );
    assert_eq!(tokenizer.consume_token(), HtmlToken::Eof);
}

#[test]
fn test_consume_token3() {
    let html = "<!DOCTYPE html><html lang=\"en\"><head><title>Test</title></head><body><div id=\'main\'><br/></div></body></html>";
    let mut tokenizer = HtmlTokenizer::new(html);
    assert_eq!(
        tokenizer.consume_token(),
        HtmlToken::Doctype {
            name: "html".to_string().into(),
            public_identifier: None,
            system_identifier: None,
            force_quirks: false
        }
    );
    assert_eq!(
        tokenizer.consume_token(),
        HtmlToken::StartTag {
            tag_name: "html".to_string(),
            attributes: vec![("lang".to_string(), "en".to_string())],
            self_closing: false
        }
    );
    assert_eq!(
        tokenizer.consume_token(),
        HtmlToken::StartTag {
            tag_name: "head".to_string(),
            attributes: vec![],
            self_closing: false
        }
    );
    assert_eq!(
        tokenizer.consume_token(),
        HtmlToken::StartTag {
            tag_name: "title".to_string(),
            attributes: vec![],
            self_closing: false
        }
    );
    assert_eq!(tokenizer.consume_token(), HtmlToken::Character('T'));
    assert_eq!(tokenizer.consume_token(), HtmlToken::Character('e'));
    assert_eq!(tokenizer.consume_token(), HtmlToken::Character('s'));
    assert_eq!(tokenizer.consume_token(), HtmlToken::Character('t'));
    assert_eq!(
        tokenizer.consume_token(),
        HtmlToken::EndTag {
            tag_name: "title".to_string(),
            attributes: vec![],
            self_closing: false
        }
    );
    assert_eq!(
        tokenizer.consume_token(),
        HtmlToken::EndTag {
            tag_name: "head".to_string(),
            attributes: vec![],
            self_closing: false
        }
    );
    assert_eq!(
        tokenizer.consume_token(),
        HtmlToken::StartTag {
            tag_name: "body".to_string(),
            attributes: vec![],
            self_closing: false
        }
    );
    assert_eq!(
        tokenizer.consume_token(),
        HtmlToken::StartTag {
            tag_name: "div".to_string(),
            attributes: vec![("id".to_string(), "main".to_string())],
            self_closing: false
        }
    );
    assert_eq!(
        tokenizer.consume_token(),
        HtmlToken::StartTag {
            tag_name: "br".to_string(),
            attributes: vec![],
            self_closing: true
        }
    );
    assert_eq!(
        tokenizer.consume_token(),
        HtmlToken::EndTag {
            tag_name: "div".to_string(),
            attributes: vec![],
            self_closing: false
        }
    );
    assert_eq!(
        tokenizer.consume_token(),
        HtmlToken::EndTag {
            tag_name: "body".to_string(),
            attributes: vec![],
            self_closing: false
        }
    );
    assert_eq!(
        tokenizer.consume_token(),
        HtmlToken::EndTag {
            tag_name: "html".to_string(),
            attributes: vec![],
            self_closing: false
        }
    );
    assert_eq!(tokenizer.consume_token(), HtmlToken::Eof);
}

#[test]
fn lower_case_doctype_is_recognised() {
    let mut tokenizer = HtmlTokenizer::new("<!doctype html>");
    assert_eq!(
        tokenizer.consume_token(),
        HtmlToken::Doctype {
            name: "html".to_string().into(),
            public_identifier: None,
            system_identifier: None,
            force_quirks: false
        }
    );
    assert!(is_doctype_keyword("DOCTYPE"));
    assert!(!is_doctype_keyword("doctype"));
    assert!(!is_doctype_keyword("DOCTYP"));
}

#[test]
fn raw_text_keeps_a_lone_less_than_sign_by_index() {
    let mut t = pentas::html::tokenizer::HtmlTokenizer::new("a<b</x");
    t.change_state(pentas::html::token::TokenizationState::RawText);
    let mut out = Vec::new();
    loop {
        let token = t.consume_token();
        if token == HtmlToken::Eof {
            break;
        }
        out.push(token);
    }
    assert_eq!(
        out,
        vec![
            HtmlToken::Character('a'),
            HtmlToken::Character('<'),
            HtmlToken::Character('b'),
            HtmlToken::Character('<'),
            HtmlToken::Character('/'),
            HtmlToken::Character('x'),
        ]
    );
}
