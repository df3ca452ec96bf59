//! Which tokenizer files are taken: JSON, tables and the parts of a tokenizer.

use den_embed::charsmap::{check_charsmap, check_table, decode};
use den_embed::json::{find_only, is_named, read_list, read_object, skip_value};
use den_embed::shape::check_file;
use den_embed::tokens::{LoadError, TextTokenizer};

#[test]
fn a_value_ends_where_it_ends() {
    let ends = |s: &str| skip_value(s.as_bytes(), 0, 8);
    for whole in [
        "null", "true", "false", "0", "-0", "12", "-1.5", "1e9", "1E+09", "2.5e-07", "\"\"", "\"a b\"",
        r#""\"\\\/\b\f\n\r\té ""#, r#""\u00e9\uD83d\udE00""#, "[]", "[ ]", "{}", "{ }", "[1,2 , 3]",
        r#"{"a":1,"b":[{"c":null}]}"#, "[[[[[[[[]]]]]]]]",
    ] {
        assert_eq!(ends(whole), Some(whole.len()), "{whole}");
        assert_eq!(ends(&format!("{whole} ,")), Some(whole.len()), "{whole}");
    }
    for broken in [
        "", " 1", "nul", "tru", "01x", "-", "1.", "1.e5", ".5", "1e", "1e+", "1e100", "+1", "\"", "\"a", "\"\n\"",
        r#""\x""#, r#""\u12""#, r#""\u12g4""#, r#""\ud83d""#, r#""\ud83dx""#, r#""\ud83d\u0041""#,
        r#""\ude00""#, "[", "[1", "[1,", "[1,]", "[,1]", "[1 2]", "{", "{\"a\"", "{\"a\":", "{\"a\":1",
        "{\"a\":1,", "{\"a\":1,}", "{a:1}", "{\"a\" 1}", "{1:2}", "[[[[[[[[[]]]]]]]]]",
    ] {
        assert!(ends(broken).is_none(), "{broken}");
    }
    assert_eq!(ends(&"9".repeat(200)), Some(200));
    assert_eq!(ends(&"9".repeat(201)), None);
}

#[test]
fn members_and_elements_are_found_in_their_order() {
    let s = br#" {"a" : [ 10, "x" ], "b":2,"a":3, "\u0062": 4} "#;
    let (members, end) = read_object(s, 1, 4).unwrap();
    assert_eq!(end, s.len() - 1);
    assert_eq!(members.len(), 4);
    assert!(is_named(s, members[1].key, "b"));
    assert!(!is_named(s, members[3].key, "b"), "an escaped key was taken for what it stands for");
    assert_eq!(find_only(s, &members, "b"), Some(members[1].value));
    assert_eq!(find_only(s, &members, "a"), None, "there are two");
    let (elements, _) = read_list(s, members[0].value, 4).unwrap();
    assert_eq!(elements.iter().map(|&i| s[i]).collect::<Vec<_>>(), b"1\"");
}

#[test]
fn base_64_is_read_strictly() {
    assert_eq!(decode(b"").unwrap(), b"");
    assert_eq!(decode(b"Zg==").unwrap(), b"f");
    assert_eq!(decode(b"Zm8=").unwrap(), b"fo");
    assert_eq!(decode(b"Zm9v").unwrap(), b"foo");
    assert_eq!(decode(b"Zm9vYmE=").unwrap(), b"fooba");
    assert_eq!(decode(b"+/+/").unwrap(), [0xfb, 0xff, 0xbf]);
    for bad in ["Z", "Zm9", "Zh==", "Zm9=", "====", "Zg=a", "Z===", "Zm9v\n", "Zm-_"] {
        assert!(decode(bad.as_bytes()).is_none(), "{bad}");
    }
}

fn base_64(bytes: &[u8]) -> String {
    let alphabet = b"ABCDEFGHIJKLMNOPQRSTUVWXYZabcdefghijklmnopqrstuvwxyz0123456789+/";
    let mut out = String::new();
    for chunk in bytes.chunks(3) {
        let n = (chunk[0] as u32) << 16
            | (*chunk.get(1).unwrap_or(&0) as u32) << 8
            | *chunk.get(2).unwrap_or(&0) as u32;
        for i in 0..4 {
            if i <= chunk.len() {
                out.push(alphabet[(n >> (18 - 6 * i)) as usize & 63] as char);
            } else {
                out.push('=');
            }
        }
    }
    out
}

/// A table that has one entry, the byte `from`, whose replacement begins at `at` in `text`; `units` of room.
fn table(from: u8, at: u32, text: &[u8], units: usize) -> Vec<u8> {
    let mut trie = vec![0u32; 0x300];
    trie[0] = 0x100 << 10;
    let q = 0x100 ^ from as u32;
    trie[q as usize] = (q ^ 0x200) << 10 | 1 << 8 | from as u32;
    trie[0x200] = 1 << 31 | at;
    trie.truncate(units);
    let mut bytes = (4 * trie.len() as u32).to_le_bytes().to_vec();
    for unit in trie {
        bytes.extend(unit.to_le_bytes());
    }
    bytes.extend(text);
    bytes
}

#[test]
fn a_table_that_leads_outside_is_refused() {
    assert!(check_table(&table(b'A', 0, b"a\0", 0x300)));
    assert!(check_table(&table(b'A', 2, b"a\0", 0x300)), "the end of the replacements is a place");
    assert!(check_charsmap(base_64(&table(b'A', 0, b"a\0", 0x300)).as_bytes()));
    assert!(!check_table(&table(b'A', 3, b"a\0", 0x300)), "past the replacements");
    assert!(check_table(&table(b'A', 0, "é\0".as_bytes(), 0x300)));
    assert!(!check_table(&table(b'A', 1, "é\0".as_bytes(), 0x300)), "inside a character");
    assert!(!check_table(&table(b'A', 0, b"\xff\0", 0x300)), "no UTF-8");
    assert!(!check_table(&table(b'A', 0, b"a\0", 0x2ff)), "a byte leads outside");
    assert!(!check_table(&table(b'A', 0, b"a\0", 0x200)), "the leaf is outside");
    assert!(!check_table(&table(b'A', 0, b"a\0", 0x100)), "the root leads outside");
    assert!(!check_table(&table(b'A', 0, b"a\0", 0)), "no root");
    assert!(!check_table(&table(b'<', 0, b"a\0", 0x300)), "a lone < is replaced");
    assert!(!check_table(&[0, 1, 0]));
    assert!(!check_table(&[8, 0, 0, 0, 1, 2, 3, 4]), "fewer units than it says");
}

fn with_table(charsmap: &str) -> String {
    r#"{
  "version": "1.0", "truncation": null,
  "padding": {"strategy": "BatchLongest", "direction": "Right", "pad_to_multiple_of": null, "pad_id": 1,
    "pad_type_id": 0, "pad_token": "<pad>"},
  "added_tokens": [
    {"id": 1, "content": "<s>", "single_word": false, "lstrip": false, "rstrip": false, "normalized": false, "special": true},
    {"id": 5, "content": "<mask>", "single_word": false, "lstrip": true, "rstrip": false, "normalized": true, "special": true}
  ],
  "normalizer": {"type": "Sequence", "normalizers": [
    {"type": "Precompiled", "precompiled_charsmap": "CHARSMAP"},
    {"type": "Replace", "pattern": {"Regex": " {2,}"}, "content": " "}
  ]},
  "pre_tokenizer": {"type": "Metaspace", "replacement": "▁", "prepend_scheme": "always", "split": true},
  "post_processor": {
    "type": "TemplateProcessing",
    "single": [{"SpecialToken": {"id": "<s>", "type_id": 0}}, {"Sequence": {"id": "A", "type_id": 0}},
      {"SpecialToken": {"id": "</s>", "type_id": 0}}],
    "pair": [{"Sequence": {"id": "A", "type_id": 0}}, {"Sequence": {"id": "B", "type_id": 0}}],
    "special_tokens": {
      "<s>": {"id": "<s>", "ids": [1], "tokens": ["<s>"]},
      "</s>": {"id": "</s>", "ids": [2], "tokens": ["</s>"]}
    }
  },
  "decoder": {"type": "Metaspace", "replacement": "▁", "prepend_scheme": "always", "split": true},
  "model": {"type": "Unigram", "unk_id": 0, "byte_fallback": false, "vocab": [
    ["<unk>", 0.0], ["<s>", 0.0], ["</s>", 0.0], ["▁a", -1.5], ["▁b", -2.5e-1], ["<mask>", 0.0]
  ]}
}"#
    .replace("CHARSMAP", charsmap)
}

fn pieces() -> String {
    with_table(&base_64(&table(b'A', 0, b"a\0", 0x300)))
}

#[test]
fn a_converted_sentencepiece_model_is_taken() {
    assert!(check_file(pieces().as_bytes()));
    let Ok(t) = TextTokenizer::load(&pieces(), 16) else { panic!("not loaded") };
    assert_eq!(t.tokens("A   b").unwrap().ids, vec![1, 3, 4, 2]);
    assert_eq!(t.tokens("a <mask> b ñ").unwrap().ids, vec![1, 3, 5, 4, 0, 2]);
    let Ok(t) = TextTokenizer::load(&pieces(), 3) else { panic!("not loaded") };
    assert_eq!(t.tokens("b A b").unwrap().ids, vec![1, 4, 2]);
    assert!(!refused(&pieces().replace("\"▁b\"", &format!("\"{}\"", "b".repeat(1022)))));
}

fn refused(file: &str) -> bool {
    matches!(TextTokenizer::load(file, 16), Err(LoadError::Unsupported))
}

#[test]
fn a_file_whose_table_could_not_be_walked_is_refused() {
    for bytes in [
        table(b'A', 3, b"a\0", 0x300),
        table(b'A', 0, b"a\0", 0x200),
        table(b'A', 0, b"\xff", 0x300),
        table(b'A', 0, b"a\0", 0),
        Vec::new(),
    ] {
        assert!(refused(&with_table(&base_64(&bytes))));
    }
    assert!(refused(&with_table("no table")));
    assert!(refused(&with_table("\\u0041AAA")));
    assert!(refused(&pieces().replace("precompiled_charsmap", "charsmap")));
}

#[test]
fn a_file_that_breaks_off_is_refused() {
    let file = pieces();
    for (end, _) in file.char_indices() {
        assert!(refused(&file[..end]), "{end}");
    }
    assert!(refused(&format!("{file}x")));
    assert!(!refused(&format!(" {file}\n")));
    assert!(refused(&file.replace("\"split\": true}", "\"split\": tru}")));
}

#[test]
fn a_template_that_names_what_is_not_there_is_refused() {
    let file = pieces();
    let (single, text) = (r#"{"SpecialToken": {"id": "<s>", "type_id": 0}}"#, r#"{"Sequence": {"id": "A", "type_id": 0}}"#);
    assert!(refused(&file.replacen(single, r#"{"SpecialToken": {"id": "<x>", "type_id": 0}}"#, 1)));
    assert!(refused(&file.replacen(text, r#"{"Sequence": {"id": "B", "type_id": 0}}"#, 1)));
    assert!(refused(&file.replacen(single, text, 1)), "the text stands there twice");
    assert!(refused(&file.replacen(single, r#"{"SpecialToken": ["<s>", 0]}"#, 1)));
    assert!(refused(&file.replace("TemplateProcessing", "Sequence")));
    assert!(refused(&file.replace("\"special_tokens\"", "\"special\"")));
}

#[test]
fn parts_of_other_kinds_are_refused() {
    let file = pieces();
    for (from, to) in [
        ("\"Unigram\"", "\"BPE\""),
        ("\"Metaspace\", \"replacement\": \"▁\", \"prepend_scheme\": \"always\", \"split\": true},\n  \"post", "\"FixedLength\"},\n  \"post"),
        (" {2,}", " *"),
        ("\"▁b\"", &format!("\"{}\"", "b".repeat(1023))),
        ("[\"▁b\", -2.5e-1]", "\"▁b\""),
        ("\"BatchLongest\"", "{\"Fixed\": 6}"),
        ("\"pad_to_multiple_of\": null", "\"pad_to_multiple_of\": 8"),
        ("\"rstrip\": false", "\"rstrip\": true"),
        ("\"content\": \"<mask>\"", "\"content\": \" \""),
        ("\"normalizer\"", "\"norm\\u0061lizer\""),
        ("\"type\": \"Unigram\"", "\"type\": \"Unigram\", \"type\": \"Unigram\""),
        ("\"unk_id\": 0", &format!("\"unk_id\": {}{}", "[".repeat(64), "]".repeat(64))),
    ] {
        assert!(file.contains(from), "{from}");
        assert!(refused(&file.replace(from, to)), "{to}");
    }
}

fn with_normalizer(normalizer: &str) -> String {
    let file = pieces();
    let (from, to) = (file.find("\"normalizer\"").unwrap(), file.find("\"pre_tokenizer\"").unwrap());
    format!("{}\"normalizer\": {normalizer},\n  {}", &file[..from], &file[to..])
}

/// A normalizer of this kind is known by its members, so that another could hide behind its name.
#[test]
fn nothing_hides_behind_a_bert_normalizer() {
    let bert = r#"{"type": "BertNormalizer", "clean_text": true, "handle_chinese_chars": true, "strip_accents": null, "lowercase": true}"#;
    let Ok(t) = TextTokenizer::load(&with_normalizer(bert), 16) else { panic!("not loaded") };
    assert_eq!(t.tokens("A b").unwrap().ids, vec![1, 3, 4, 2]);
    for hidden in [
        r#""normalizers": [{"type": "Precompiled", "precompiled_charsmap": "*"}]"#,
        r#""normalizers": [{"type": "Precompiled", "precompiled_charsmap": "AAAAAA=="}]"#,
        r#""precompiled_charsmap": "AAAAAA==""#,
        r#""pattern": {"Regex": "^"}, "content": "x""#,
        r#""prepend": "x""#,
    ] {
        let file = with_normalizer(&format!(r#"{{"type": "BertNormalizer", {hidden}}}"#));
        assert!(refused(&file), "{hidden}");
    }
}

/// With two tables, what the first makes of a token the second could remove whole.
#[test]
fn more_than_one_table_is_refused() {
    let one = format!(
        r#"{{"type": "Precompiled", "precompiled_charsmap": "{}"}}"#,
        base_64(&table(b'A', 0, b"a\0", 0x300))
    );
    let both = |a: &str, b: &str| format!(r#"{{"type": "Sequence", "normalizers": [{a}, {b}]}}"#);
    assert!(!refused(&with_normalizer(&one)));
    assert!(!refused(&with_normalizer(&both(&one, r#"{"type": "Lowercase"}"#))));
    assert!(refused(&with_normalizer(&both(&one, &one))));
    let nested = both(r#"{"type": "Nmt"}"#, &one);
    assert!(!refused(&with_normalizer(&nested)));
    assert!(refused(&with_normalizer(&both(&one, &nested))));
    assert!(refused(&with_normalizer(&both(&nested, &one))));
}

/// `<` with a mark behind it, which a second table maps to nothing: an added token would become empty.
#[test]
fn an_added_token_cannot_become_empty() {
    // The first table turns `a` into U+0338.
    let first = table(b'a', 0, "\u{338}\0".as_bytes(), 0x300);
    // The second follows `<`, 0xcc, 0xb8 and has nothing for them to become.
    let mut trie = vec![0u32; 0x600];
    let (mut p, mut link) = (0u32, 0x100u32);
    trie[0] = link << 10;
    for (i, b) in [b'<', 0xcc, 0xb8].into_iter().enumerate() {
        let q = p ^ link ^ b as u32;
        link = q ^ (0x200 + 0x100 * i as u32);
        trie[q as usize] = link << 10 | b as u32 | if i == 2 { 1 << 8 } else { 0 };
        p = q;
    }
    trie[0x400] = 1 << 31;
    let mut second = (4 * trie.len() as u32).to_le_bytes().to_vec();
    for unit in trie {
        second.extend(unit.to_le_bytes());
    }
    second.push(0);
    assert!(check_table(&first) && check_table(&second), "each is sound by itself");
    let precompiled =
        |t: &[u8]| format!(r#"{{"type": "Precompiled", "precompiled_charsmap": "{}"}}"#, base_64(t));
    let both = format!(
        r#"{{"type": "Sequence", "normalizers": [{}, {}]}}"#,
        precompiled(&first),
        precompiled(&second)
    );
    assert!(refused(&with_normalizer(&both).replace("<mask>", "<a")));
    // With one of them, the token is found and nothing stops.
    for t in [first, second] {
        let file = with_normalizer(&precompiled(&t)).replace("<mask>", "<a");
        let Ok(t) = TextTokenizer::load(&file, 16) else { panic!("not loaded") };
        assert!(t.tokens("ñ <a b").is_ok());
    }
}

#[test]
fn a_decoder_with_a_pattern_is_refused() {
    let file = pieces();
    let at = file.find("\"decoder\"").unwrap();
    let with = |decoder: &str| {
        let end = file.find("\"model\"").unwrap();
        format!("{}\"decoder\": {decoder},\n  {}", &file[..at], &file[end..])
    };
    assert!(!refused(&with("null")));
    assert!(!refused(&with(r###"{"type": "WordPiece", "prefix": "##", "cleanup": true}"###)));
    assert!(refused(&with(
        r#"{"type": "Replace", "pattern": {"Regex": "(?:aa){18446744073709551615}"}, "content": ""}"#
    )));
    assert!(refused(&with(
        r#"{"type": "Sequence", "decoders": [{"type": "Replace", "pattern": {"String": "x"}, "content": ""}]}"#
    )));
    assert!(refused(&with(r#"{"pattern": {"Regex": "x"}, "content": ""}"#)));
}
