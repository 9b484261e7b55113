use pentas::html::token::{HtmlToken, HtmlTokenizer};

#[test]
fn tokenize_html_tag_pair() {
    let mut tokenizer = HtmlTokenizer::new("<html></html>");
    let actual = std::iter::from_fn(|| {
        let token = tokenizer.consume();
        if token == HtmlToken::Eof {
            None
        } else {
            Some(token)
        }
    })
    .collect::<Vec<_>>();
    let expected = vec![
        HtmlToken::StartTag {
            tag_name: "html".to_string(),
            attributes: vec![],
            self_closing: false,
        },
        HtmlToken::EndTag {
            tag_name: "html".to_string(),
            attributes: vec![],
            self_closing: false,
        },
    ];
    assert_eq!(actual, expected);
}

#[test]
fn tokenize_html_with_head_and_title() {
    let mut tokenizer = HtmlTokenizer::new("<html><head><title></title></head></html>");
    let actual = std::iter::from_fn(|| {
        let token = tokenizer.consume();
        if token == HtmlToken::Eof {
            None
        } else {
            Some(token)
        }
    })
    .collect::<Vec<_>>();
    let expected = vec![
        HtmlToken::StartTag {
            tag_name: "html".to_string(),
            attributes: vec![],
            self_closing: false,
        },
        HtmlToken::StartTag {
            tag_name: "head".to_string(),
            attributes: vec![],
            self_closing: false,
        },
        HtmlToken::StartTag {
            tag_name: "title".to_string(),
            attributes: vec![],
            self_closing: false,
        },
        HtmlToken::EndTag {
            tag_name: "title".to_string(),
            attributes: vec![],
            self_closing: false,
        },
        HtmlToken::EndTag {
            tag_name: "head".to_string(),
            attributes: vec![],
            self_closing: false,
        },
        HtmlToken::EndTag {
            tag_name: "html".to_string(),
            attributes: vec![],
            self_closing: false,
        },
    ];
    assert_eq!(actual, expected);
}

#[test]
fn tokenize_full_html() {
    let html = "<!DOCTYPE html><html lang=\"en\"><head><title>Test</title></head><body><div id=\'main\'><br/></div></body></html>";
    let mut tokenizer = HtmlTokenizer::new(html);
    let actual = std::iter::from_fn(|| {
        let token = tokenizer.consume();
        if token == HtmlToken::Eof {
            None
        } else {
            Some(token)
        }
    })
    .collect::<Vec<_>>();
    let expected = vec![
        HtmlToken::Doctype {
            name: "html".to_string().into(),
            public_identifier: None,
            system_identifier: None,
            force_quirks: false,
        },
        HtmlToken::StartTag {
            tag_name: "html".to_string(),
            attributes: vec![("lang".to_string(), "en".to_string())],
            self_closing: false,
        },
        HtmlToken::StartTag {
            tag_name: "head".to_string(),
            attributes: vec![],
            self_closing: false,
        },
        HtmlToken::StartTag {
            tag_name: "title".to_string(),
            attributes: vec![],
            self_closing: false,
        },
        HtmlToken::Character('T'),
        HtmlToken::Character('e'),
        HtmlToken::Character('s'),
        HtmlToken::Character('t'),
        HtmlToken::EndTag {
            tag_name: "title".to_string(),
            attributes: vec![],
            self_closing: false,
        },
        HtmlToken::EndTag {
            tag_name: "head".to_string(),
            attributes: vec![],
            self_closing: false,
        },
        HtmlToken::StartTag {
            tag_name: "body".to_string(),
            attributes: vec![],
            self_closing: false,
        },
        HtmlToken::StartTag {
            tag_name: "div".to_string(),
            attributes: vec![("id".to_string(), "main".to_string())],
            self_closing: false,
        },
        HtmlToken::StartTag {
            tag_name: "br".to_string(),
            attributes: vec![],
            self_closing: true,
        },
        HtmlToken::EndTag {
            tag_name: "div".to_string(),
            attributes: vec![],
            self_closing: false,
        },
        HtmlToken::EndTag {
            tag_name: "body".to_string(),
            attributes: vec![],
            self_closing: false,
        },
        HtmlToken::EndTag {
            tag_name: "html".to_string(),
            attributes: vec![],
            self_closing: false,
        },
    ];
    assert_eq!(actual, expected);
}

#[test]
fn raw_text_keeps_a_lone_less_than_sign() {
    let mut t = pentas::html::token::HtmlTokenizer::new("a<b</x");
    t.change_state(pentas::html::token::TokenizationState::RawText);
    let mut out = Vec::new();
    loop {
        let token = t.consume();
        if token == HtmlToken::Eof {
            break;
        }
        out.push(token);
    }
    assert_eq!(
        out,
        vec![
            HtmlToken::Character('a'),
            HtmlToken::Character('<'),
            HtmlToken::Character('b'),
            HtmlToken::Character('<'),
            HtmlToken::Character('/'),
            HtmlToken::Character('x'),
        ]
    );
}

#[test]
fn plain_text_comes_out_one_character_each() {
    let mut t = HtmlTokenizer::new("ab c");
    assert_eq!(t.consume(), HtmlToken::Character('a'));
    assert_eq!(t.consume(), HtmlToken::Character('b'));
    assert_eq!(t.consume(), HtmlToken::Character(' '));
    assert_eq!(t.consume(), HtmlToken::Character('c'));
    assert_eq!(t.consume(), HtmlToken::Eof);
    assert_eq!(t.consume(), HtmlToken::Eof);
}
