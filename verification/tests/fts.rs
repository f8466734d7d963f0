use arkeion::catalog::FtsIndexDef;
use arkeion::error::Error;
use arkeion::fts::excerpt::{highlight, snippet};
use arkeion::fts::query::DEFAULT_NEAR;
use arkeion::fts::ranking::term_counts;
use arkeion::fts::registry::tokenizer_for;
use arkeion::fts::tokenizer::{AsciiTokenizer, Tokenizer, UnicodeTokenizer};
use arkeion::fts::{parse_query, Query};
use arkeion::record::Value;

fn term(t: &str) -> Query {
    Query::Term { text: t.into(), prefix: false }
}

#[test]
fn single_term_and_prefix() {
    assert_eq!(parse_query("hola").unwrap(), term("hola"));
    assert_eq!(
        parse_query("hol*").unwrap(),
        Query::Term { text: "hol".into(), prefix: true }
    );
}

#[test]
fn implicit_and_juxtaposition() {
    assert_eq!(
        parse_query("foo bar").unwrap(),
        Query::And(Box::new(term("foo")), Box::new(term("bar")))
    );
}

#[test]
fn explicit_operators_and_precedence() {
    assert_eq!(
        parse_query("a OR b c").unwrap(),
        Query::Or(
            Box::new(term("a")),
            Box::new(Query::And(Box::new(term("b")), Box::new(term("c"))))
        )
    );
    assert_eq!(
        parse_query("a AND b NOT c").unwrap(),
        Query::And(
            Box::new(term("a")),
            Box::new(Query::Not(Box::new(term("b")), Box::new(term("c"))))
        )
    );
}

#[test]
fn parentheses_override_precedence() {
    assert_eq!(
        parse_query("(a OR b) c").unwrap(),
        Query::And(
            Box::new(Query::Or(Box::new(term("a")), Box::new(term("b")))),
            Box::new(term("c"))
        )
    );
}

#[test]
fn phrase() {
    assert_eq!(
        parse_query("\"foo bar baz\"").unwrap(),
        Query::Phrase(vec!["foo".into(), "bar".into(), "baz".into()])
    );
}

#[test]
fn near_with_and_without_distance() {
    assert_eq!(
        parse_query("NEAR(foo bar, 5)").unwrap(),
        Query::Near { terms: vec!["foo".into(), "bar".into()], distance: 5 }
    );
    assert_eq!(
        parse_query("NEAR(foo bar baz)").unwrap(),
        Query::Near {
            terms: vec!["foo".into(), "bar".into(), "baz".into()],
            distance: DEFAULT_NEAR
        }
    );
}

#[test]
fn column_filter() {
    assert_eq!(
        parse_query("subject:urgente").unwrap(),
        Query::Column { column: "subject".into(), query: Box::new(term("urgente")) }
    );
    assert_eq!(
        parse_query("body:(a OR b)").unwrap(),
        Query::Column {
            column: "body".into(),
            query: Box::new(Query::Or(Box::new(term("a")), Box::new(term("b"))))
        }
    );
}

#[test]
fn lowercase_keywords_are_terms() {
    assert_eq!(
        parse_query("foo and").unwrap(),
        Query::And(Box::new(term("foo")), Box::new(term("and")))
    );
}

#[test]
fn malformed_queries_error() {
    assert!(parse_query("").is_err());
    assert!(parse_query("(a OR b").is_err());
    assert!(parse_query("\"sin cerrar").is_err());
    assert!(parse_query("a OR").is_err());
    assert!(parse_query("NEAR(solo)").is_err());
    assert!(parse_query("NEAR(a b, x)").is_err());
    assert!(parse_query(")").is_err());
}

fn terms<T: Tokenizer>(tk: &T, text: &str) -> Vec<String> {
    let mut out = Vec::new();
    tk.tokenize(text, &mut out);
    out.into_iter().map(|t| t.text).collect()
}

#[test]
fn unicode_basico_y_posiciones() {
    let tk = UnicodeTokenizer::new();
    let mut out = Vec::new();
    tk.tokenize("The quick brown fox", &mut out);
    let textos: Vec<_> = out.iter().map(|t| t.text.as_str()).collect();
    assert_eq!(textos, ["the", "quick", "brown", "fox"]);
    let pos: Vec<_> = out.iter().map(|t| t.position).collect();
    assert_eq!(pos, [0, 1, 2, 3]);
}

#[test]
fn case_folding_diacriticos() {
    let tk = UnicodeTokenizer::new();
    assert_eq!(terms(&tk, "Café CAFÉ café"), ["cafe", "cafe", "cafe"]);
    assert_eq!(
        terms(&tk, "Niño Köln Łódź Straße œuvre"),
        ["nino", "koln", "lodz", "strasse", "oeuvre"]
    );
}

#[test]
fn separadores_y_numeros() {
    let tk = UnicodeTokenizer::new();
    assert_eq!(terms(&tk, "quick-brown, fox!"), ["quick", "brown", "fox"]);
    assert_eq!(terms(&tk, "abc123  42"), ["abc123", "42"]);
    assert!(terms(&tk, "   \t\n  ").is_empty());
}

#[test]
fn fold_desactivable() {
    let tk = UnicodeTokenizer { fold_diacritics: false, max_token_len: None };
    assert_eq!(terms(&tk, "Café"), ["café"]);
}

#[test]
fn max_token_len_descarta_y_deja_hueco() {
    let tk = UnicodeTokenizer { fold_diacritics: true, max_token_len: Some(3) };
    let mut out = Vec::new();
    tk.tokenize("ok toolong end", &mut out);
    let textos: Vec<_> = out.iter().map(|t| t.text.as_str()).collect();
    assert_eq!(textos, ["ok", "end"]);
    let pos: Vec<_> = out.iter().map(|t| t.position).collect();
    assert_eq!(pos, [0, 2]);
}

#[test]
fn byte_offsets_recortan_el_original() {
    let tk = UnicodeTokenizer::new();
    let text = "Hola, Café del Mañana";
    let mut out = Vec::new();
    tk.tokenize(text, &mut out);
    for t in &out {
        let slice = &text[t.byte_start..t.byte_end];
        assert!(!slice.is_empty());
        let got = terms(&tk, slice);
        assert_eq!(got.len(), 1);
        assert_eq!(got[0], t.text);
    }
    assert_eq!(out[1].text, "cafe");
    assert_eq!(&text[out[1].byte_start..out[1].byte_end], "Café");
}

#[test]
fn normalizacion_idempotente() {
    let tk = UnicodeTokenizer::new();
    let once = terms(&tk, "Köln Straße Niño");
    let twice = terms(&tk, &once.join(" "));
    assert_eq!(once, twice);
}

#[test]
fn ascii_ignora_no_ascii() {
    let tk = AsciiTokenizer;
    assert_eq!(terms(&tk, "Café au lait"), ["caf", "au", "lait"]);
    assert_eq!(terms(&tk, "Hello-World 99"), ["hello", "world", "99"]);
}

#[test]
fn ascii_byte_offsets_validos() {
    let tk = AsciiTokenizer;
    let text = "foo, BAR123";
    let mut out = Vec::new();
    tk.tokenize(text, &mut out);
    assert_eq!(out.len(), 2);
    assert_eq!(&text[out[0].byte_start..out[0].byte_end], "foo");
    assert_eq!(&text[out[1].byte_start..out[1].byte_end], "BAR123");
}

#[test]
fn tokenize_anade_no_vacia_el_buffer() {
    let tk = UnicodeTokenizer::new();
    let mut out = Vec::new();
    tk.tokenize("uno dos", &mut out);
    tk.tokenize("tres", &mut out);
    let textos: Vec<_> = out.iter().map(|t| t.text.as_str()).collect();
    assert_eq!(textos, ["uno", "dos", "tres"]);
}

fn hl(text: &str, query: &str) -> String {
    let tk = UnicodeTokenizer::new();
    highlight(text, &parse_query(query).unwrap(), &tk, "[", "]")
}

#[test]
fn highlight_basic_and_multiple() {
    assert_eq!(hl("el mundo es grande", "mundo"), "el [mundo] es grande");
    assert_eq!(hl("el mundo es un mundo", "mundo"), "el [mundo] es un [mundo]");
    assert_eq!(hl("mundo grande", "mundo AND grande"), "[mundo] [grande]");
}

#[test]
fn highlight_prefix_and_diacritics() {
    assert_eq!(hl("hola mundo", "mun*"), "hola [mundo]");
    assert_eq!(hl("un Café aquí", "cafe"), "un [Café] aquí");
}

#[test]
fn highlight_ignores_not_branch() {
    assert_eq!(hl("el mundo grande", "mundo NOT grande"), "el [mundo] grande");
}

#[test]
fn highlight_preserves_unmatched_text() {
    assert_eq!(hl("nada que ver", "ausente"), "nada que ver");
}

#[test]
fn snippet_windows_around_first_match_with_ellipsis() {
    let tk = UnicodeTokenizer::new();
    let text = "uno dos tres cuatro objetivo seis siete ocho nueve diez";
    let q = parse_query("objetivo").unwrap();
    let s = snippet(text, &q, &tk, "[", "]", "…", 4);
    assert!(s.contains("[objetivo]"), "snippet: {s}");
    assert!(s.starts_with('…') && s.ends_with('…'), "snippet: {s}");
    assert!(!s.contains("uno") && !s.contains("diez"), "snippet: {s}");
}

#[test]
fn snippet_short_text_no_ellipsis() {
    let tk = UnicodeTokenizer::new();
    let q = parse_query("mundo").unwrap();
    let s = snippet("hola mundo", &q, &tk, "[", "]", "…", 10);
    assert_eq!(s, "hola [mundo]");
}

#[test]
fn registro_resuelve_y_rechaza() {
    assert_eq!(tokenizer_for("unicode").unwrap().name(), "unicode");
    assert_eq!(tokenizer_for("ascii").unwrap().name(), "ascii");
    assert!(matches!(tokenizer_for("porter"), Err(Error::Sql { .. })));
}

#[test]
fn lower_case_of_characters_beyond_ascii() {
    let tk = UnicodeTokenizer { fold_diacritics: false, max_token_len: None };
    assert_eq!(terms(&tk, "ÀÉ Ω"), ["àé", "ω"]);
    assert_eq!(terms(&tk, "a\u{2028}b"), ["a", "b"]);
}

#[test]
fn a_word_is_lowered_as_a_whole() {
    let tk = UnicodeTokenizer::new();
    let mut out = Vec::new();
    tk.tokenize("\u{39F}\u{394}\u{39F}\u{3A3}", &mut out);
    assert_eq!(out.len(), 1);
    assert_eq!(out[0].text, "\u{3BF}\u{3B4}\u{3BF}\u{3C2}");
    assert_eq!(out[0].position, 0);
    assert_eq!((out[0].byte_start, out[0].byte_end), (0, 8));
}

#[test]
fn marks_come_out_of_a_highlighted_text() {
    let tk = UnicodeTokenizer::new();
    let text = "El ni\u{f1}o corre; corren los ni\u{f1}os.";
    let q = parse_query("corre*").unwrap();
    assert_eq!(highlight(text, &q, &tk, "", ""), text);
    let marked = highlight(text, &q, &tk, "[", "]");
    assert_ne!(marked, text);
    assert_eq!(marked.replace(['[', ']'], ""), text);
}

#[test]
fn terms_are_counted_over_the_indexed_texts() {
    let mut fts = FtsIndexDef { fts_id: 1, columns: vec![0, 2, 7], tokenizer: "unicode".into() };
    let row = vec![
        Value::Text("Uno dos uno".into()),
        Value::Text("uno".into()),
        Value::Text("UNO tres".into()),
    ];
    let terms = vec!["uno".to_owned(), "tres".to_owned(), "cinco".to_owned()];
    assert_eq!(term_counts(&fts, &row, &terms).unwrap(), (vec![3, 1, 0], 5));
    let other = vec![Value::Null, Value::Text("uno".into()), Value::Integer(4)];
    assert_eq!(term_counts(&fts, &other, &terms).unwrap(), (vec![0, 0, 0], 0));
    fts.tokenizer = "otro".into();
    assert!(matches!(term_counts(&fts, &row, &terms), Err(Error::Sql { .. })));
}
