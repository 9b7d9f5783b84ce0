use soup_ui::strutil::chars_of;
use soup_ui::text_editor::highlight::{
    highlight_json_line, next_is_colon, plain_line, tokenize, Kind, SpanStyle,
};

fn runs(line: &str, scroll: usize) -> Vec<(String, SpanStyle)> {
    highlight_json_line(&chars_of(line), scroll)
        .into_iter()
        .map(|r| (r.text, r.style))
        .collect()
}

#[test]
fn tokens_tile_the_line() {
    let cs = chars_of("  \"k\\\"y\": -1.5e3, [null] x // c");
    let toks = tokenize(&cs);
    assert_eq!(toks[0].start, 0);
    for w in toks.windows(2) {
        assert_eq!(w[0].end, w[1].start);
    }
    assert_eq!(toks.last().unwrap().end, cs.len());
    let kinds: Vec<Kind> = toks.iter().map(|t| t.kind).collect();
    assert_eq!(
        kinds,
        vec![
            Kind::Ws,
            Kind::Str,
            Kind::Punct,
            Kind::Ws,
            Kind::Number,
            Kind::Punct,
            Kind::Ws,
            Kind::Punct,
            Kind::Literal,
            Kind::Punct,
            Kind::Ws,
            Kind::Other,
            Kind::Ws,
            Kind::Comment,
        ]
    );
}

#[test]
fn unterminated_string_runs_to_line_end() {
    let cs = chars_of("\"abc\\");
    let toks = tokenize(&cs);
    assert_eq!(toks.len(), 1);
    assert_eq!(toks[0].kind, Kind::Str);
    assert_eq!(toks[0].end, 5);
}

#[test]
fn keys_values_and_literals_get_their_styles() {
    let r = runs("  \"key\": \"val\", 12, true // c", 0);
    let styles: Vec<SpanStyle> = r.iter().map(|x| x.1).collect();
    assert_eq!(
        styles,
        vec![
            SpanStyle::Plain,
            SpanStyle::Key,
            SpanStyle::Punct,
            SpanStyle::Plain,
            SpanStyle::Str,
            SpanStyle::Punct,
            SpanStyle::Plain,
            SpanStyle::Number,
            SpanStyle::Punct,
            SpanStyle::Plain,
            SpanStyle::Keyword,
            SpanStyle::Plain,
            SpanStyle::Comment,
        ]
    );
    assert_eq!(r[1].0, "\"key\"");
    assert_eq!(r[12].0, "// c");
}

#[test]
fn words_other_than_literals_are_plain() {
    let r = runs("truex nul", 0);
    assert_eq!(r[0], ("truex".to_string(), SpanStyle::Plain));
    assert_eq!(r[2], ("nul".to_string(), SpanStyle::Plain));
}

#[test]
fn scroll_cuts_tokens_at_the_left_edge() {
    let r = runs("  \"key\": 1", 3);
    assert_eq!(r[0], ("key\"".to_string(), SpanStyle::Key));
    let joined: String = r.iter().map(|x| x.0.clone()).collect();
    assert_eq!(joined, "key\": 1");
}

#[test]
fn runs_spell_the_visible_text() {
    let line = "{\"a\": [1, 2.5, false], \"b\": \"x\\\"y\"} // note";
    for scroll in 0..50 {
        let joined: String = runs(line, scroll).iter().map(|x| x.0.clone()).collect();
        let expected: String = line.chars().skip(scroll).collect();
        assert_eq!(joined, expected);
    }
}

#[test]
fn empty_line_has_no_runs() {
    assert!(runs("", 0).is_empty());
    assert!(runs("abc", 3).is_empty());
}

#[test]
fn colon_after_blank_tokens() {
    let cs = chars_of("\"a\"  :");
    let toks = tokenize(&cs);
    assert!(next_is_colon(&toks, 0, &cs));
    let cs = chars_of("\"a\" , :");
    let toks = tokenize(&cs);
    assert!(!next_is_colon(&toks, 0, &cs));
    assert!(!next_is_colon(&toks, 10, &cs));
}

#[test]
fn plain_line_is_one_run() {
    let r = plain_line(&chars_of("hello"), 2);
    assert_eq!(r.len(), 1);
    assert_eq!(r[0].text, "llo");
    assert_eq!(r[0].style, SpanStyle::Plain);
    assert!(plain_line(&chars_of("hi"), 5).is_empty());
}
