//! Keys, the cache, the steps of an embedding, tokens and batches.

use den_embed::batch::{batch_counted, batch_received, BatchStep};
use den_embed::config::{Config, Environment};
use den_embed::embed::{
    clamp_components, embed_inferred, embed_many, embed_one, zero_vector, EmbedStep, ManyStep, DIMS,
};
use den_embed::key::{cache_key, key_text, labelled_bytes};
use den_embed::lru::Lru;
use den_embed::tokens::{
    count_tokens, model_input, total_tokens, LoadError, TextTokenizer, Tokens,
};

fn defaults() -> Config {
    Config::from_env(&Environment {
        port: None,
        model_dir: None,
        onnx_path: None,
        tokenizer_path: None,
        idle_unload_secs: None,
        max_chars: None,
        max_tokens: None,
        max_request_tokens: None,
        max_batch: None,
        max_body_bytes: None,
        cache_max_entries: None,
        intra_threads: None,
        metrics_token: None,
        log_requests: None,
    })
    .0
}

fn strings(texts: &[&str]) -> Vec<String> {
    texts.iter().map(|t| t.to_string()).collect()
}

#[test]
fn cache_key_is_deterministic_and_model_scoped() {
    let a = cache_key("hola");
    assert_eq!(a, cache_key("hola"));
    assert_ne!(a, cache_key("adios"));
    // blake2b-128 -> 32 hex chars.
    assert_eq!(a.len(), 32);
    assert!(a.bytes().all(|b| b.is_ascii_digit() || (b'a'..=b'f').contains(&b)));
}

#[test]
fn cache_keys_are_the_digests_of_label_and_text() {
    assert_eq!(cache_key("hola"), "e4acc4c072a2d9427d0f9e49b87d8589");
    assert_eq!(cache_key("adios"), "489221d9d2258e1fce439ab3e3e132d1");
    assert_eq!(cache_key(""), "4c759ae38cf0ef7bd87eef1b5c394270");
    assert_eq!(cache_key("ñandú"), "d16efd0a8f2da5bf82c790631ab99e38");
    assert_eq!(labelled_bytes("ñ"), b"bge-m3\x00\xc3\xb1".to_vec());
    assert_eq!(key_text(&[0x00, 0x9f, 0xa0, 0xff]), "009fa0ff");
}

#[test]
fn a_full_cache_drops_the_least_recently_used() {
    let mut cache = Lru::new(2);
    cache.put("a".into(), vec![1]);
    cache.put("b".into(), vec![2]);
    assert_eq!(cache.get("a"), Some(vec![1]));
    cache.put("c".into(), vec![3]);
    assert_eq!(cache.len(), 2);
    assert_eq!(cache.capacity(), 2);
    assert_eq!(cache.get("b"), None);
    assert_eq!(cache.get("a"), Some(vec![1]));
    assert_eq!(cache.get("c"), Some(vec![3]));
    assert_eq!(cache.uses(), 7);
}

/// With room for four, an entry outlives three others, and not a fourth.
#[test]
fn an_entry_outlives_fewer_puts_than_there_is_room_for() {
    for n in 1..=4 {
        let mut cache = Lru::new(4);
        for old in ["w", "x", "y", "z"] {
            cache.put(old.into(), vec![0]);
        }
        assert_eq!(cache.get("w"), Some(vec![0]));
        for i in 0..n {
            cache.put(format!("new{i}"), vec![i]);
        }
        assert_eq!(cache.get("w").is_some(), n < 4, "after {n} puts");
    }
}

#[test]
fn putting_a_key_again_replaces_its_vector() {
    let mut cache = Lru::new(2);
    cache.put("a".into(), vec![1]);
    cache.put("b".into(), vec![2]);
    cache.put("a".into(), vec![9]);
    assert_eq!(cache.len(), 2);
    cache.put("c".into(), vec![3]);
    assert_eq!(cache.get("a"), Some(vec![9]));
    assert_eq!(cache.get("b"), None);
}

#[test]
fn a_cache_without_room_holds_nothing() {
    let mut cache = Lru::new(0);
    cache.put("a".into(), vec![1]);
    assert_eq!(cache.get("a"), None);
    assert_eq!(cache.len(), 0);
    assert_eq!(cache.uses(), 0);
}

/// The cache against a plain list in order of use, over a long run of operations.
#[test]
fn the_cache_behaves_as_a_list_in_order_of_use() {
    let mut cache = Lru::new(5);
    let mut list: Vec<(String, Vec<i32>)> = Vec::new();
    let mut seed = 12345u64;
    for step in 0..5000 {
        seed = seed.wrapping_mul(6364136223846793005).wrapping_add(1442695040888963407);
        let key = format!("k{}", (seed >> 33) % 9);
        let at = list.iter().position(|(k, _)| *k == key);
        if (seed >> 60) % 2 == 0 {
            let want = at.map(|i| {
                let e = list.remove(i);
                let v = e.1.clone();
                list.push(e);
                v
            });
            assert_eq!(cache.get(&key), want);
        } else {
            if let Some(i) = at {
                list.remove(i);
            }
            list.push((key.clone(), vec![step]));
            if list.len() > 5 {
                list.remove(0);
            }
            cache.put(key, vec![step]);
        }
        assert_eq!(cache.len(), list.len());
    }
}

#[test]
fn components_are_held_to_their_range() {
    assert_eq!(
        clamp_components(&vec![0, 127, 128, -127, -128, i64::MAX, i64::MIN, 76, -102]),
        vec![0, 127, 127, -127, -127, 127, -127, 76, -102]
    );
}

/// Embeds with a stand-in for the model that tells the length of what it was given.
fn embed(cache: &mut Lru, max_chars: usize, text: &str, asked: &mut Vec<String>) -> Vec<i32> {
    match embed_one(cache, max_chars, text) {
        EmbedStep::Answer(v) => v,
        EmbedStep::Infer { text, key } => {
            assert_eq!(key, cache_key(&text));
            asked.push(text.clone());
            let vector = vec![text.chars().count() as i32; 3];
            embed_inferred::<String>(cache, key, Ok(vector)).unwrap()
        }
    }
}

#[test]
fn a_blank_text_has_the_zero_vector_and_asks_nobody() {
    let (mut cache, mut asked) = (Lru::new(4), Vec::new());
    for text in ["", "  \n", "\u{3000}"] {
        assert_eq!(embed(&mut cache, 500, text, &mut asked), zero_vector());
    }
    assert_eq!(zero_vector(), vec![0; 1024]);
    assert_eq!(DIMS, 1024);
    assert!(asked.is_empty());
    assert_eq!(cache.len(), 0);
}

#[test]
fn the_model_is_asked_once_for_the_characters_that_count() {
    let (mut cache, mut asked) = (Lru::new(4), Vec::new());
    assert_eq!(embed(&mut cache, 3, "ñandú", &mut asked), vec![3; 3]);
    assert_eq!(embed(&mut cache, 3, "ñanita", &mut asked), vec![3; 3]);
    assert_eq!(embed(&mut cache, 3, "ñ", &mut asked), vec![1; 3]);
    assert_eq!(asked, strings(&["ñan", "ñ"]));
}

#[test]
fn a_failed_inference_is_handed_on_and_not_kept() {
    let mut cache = Lru::new(4);
    let key = match embed_one(&mut cache, 500, "hola") {
        EmbedStep::Infer { key, .. } => key,
        EmbedStep::Answer(_) => panic!("an empty cache answered"),
    };
    assert_eq!(embed_inferred(&mut cache, key, Err("no model")), Err("no model"));
    assert_eq!(cache.len(), 0);
}

/// Embeds a batch step by step.
fn batch<E>(
    texts: &[String],
    mut embed: impl FnMut(&String) -> Result<Vec<i32>, E>,
) -> Result<Vec<Vec<i32>>, E> {
    let mut step = embed_many(texts.len(), Vec::new(), None);
    loop {
        match step {
            ManyStep::Embed { index, done } => {
                let outcome = embed(&texts[index]);
                step = embed_many(texts.len(), done, Some(outcome));
            }
            ManyStep::Done(vectors) => return Ok(vectors),
            ManyStep::Failed(e) => return Err(e),
        }
    }
}

/// With any cache, a large one, a tiny one or none, a batch gives each text the vector it has alone.
#[test]
fn a_text_has_the_same_vector_in_a_batch_as_on_its_own() {
    let texts = strings(&["uno", "", "dos tres", "uno", "cuatro", "  ", "dos tres"]);
    for cap in [0, 1, 2, 100] {
        let mut cache = Lru::new(cap);
        let in_batch = batch(&texts, |t| -> Result<Vec<i32>, String> {
            Ok(embed(&mut cache, 500, t, &mut Vec::new()))
        })
        .unwrap();
        assert_eq!(in_batch.len(), texts.len());
        for (text, vector) in texts.iter().zip(&in_batch) {
            assert_eq!(*vector, embed(&mut Lru::new(8), 500, text, &mut Vec::new()), "{text:?}");
        }
    }
}

#[test]
fn a_batch_stops_at_the_first_failure() {
    let mut asked = Vec::new();
    let r = batch(&strings(&["a", "bad", "c", "worse"]), |t| {
        asked.push(t.clone());
        if t == "bad" || t == "worse" {
            Err(format!("{t} failed"))
        } else {
            Ok(vec![1])
        }
    });
    assert_eq!(r, Err("bad failed".to_string()));
    assert_eq!(asked, strings(&["a", "bad"]));
}

#[test]
fn an_empty_batch_is_done_at_once() {
    let r = batch(&[], |_| -> Result<Vec<i32>, String> { panic!("there is nothing to embed") });
    assert_eq!(r, Ok(Vec::new()));
}

const WORDS: &str = r#"{
  "version": "1.0", "truncation": null, "padding": null, "added_tokens": [], "normalizer": null,
  "pre_tokenizer": {"type": "Whitespace"},
  "post_processor": {
    "type": "TemplateProcessing",
    "single": [
      {"SpecialToken": {"id": "[CLS]", "type_id": 0}},
      {"Sequence": {"id": "A", "type_id": 0}},
      {"SpecialToken": {"id": "[SEP]", "type_id": 0}}
    ],
    "pair": [{"Sequence": {"id": "A", "type_id": 0}}, {"Sequence": {"id": "B", "type_id": 1}}],
    "special_tokens": {
      "[CLS]": {"id": "[CLS]", "ids": [1], "tokens": ["[CLS]"]},
      "[SEP]": {"id": "[SEP]", "ids": [2], "tokens": ["[SEP]"]}
    }
  },
  "decoder": null,
  "model": {
    "type": "WordLevel",
    "vocab": {"[UNK]": 0, "[CLS]": 1, "[SEP]": 2, "a": 3, "quiet": 4, "romance": 5},
    "unk_token": "[UNK]"
  }
}"#;

fn words(cap: usize) -> TextTokenizer {
    match TextTokenizer::load(WORDS, cap) {
        Ok(t) => t,
        Err(LoadError::Unsupported) => panic!("unsupported"),
        Err(LoadError::Malformed(e)) => panic!("{e}"),
        Err(LoadError::CapTooSmall { needed }) => panic!("needs {needed}"),
    }
}

#[test]
fn a_text_is_cut_to_the_token_cap() {
    let tokens = words(16).tokens("a quiet romance here").unwrap();
    assert_eq!(tokens.ids, vec![1, 3, 4, 5, 0, 2]);
    assert_eq!(tokens.mask, vec![1; 6]);
    let tokens = words(4).tokens("a quiet romance here").unwrap();
    assert_eq!(tokens.ids, vec![1, 3, 4, 2]);
    let input = model_input(&tokens).unwrap();
    assert_eq!(input.ids, vec![1i64, 3, 4, 2]);
    assert_eq!(input.mask, vec![1i64; 4]);
    assert!(model_input(&Tokens { ids: vec![1, 2], mask: vec![1] }).is_none());
}

#[test]
fn a_file_that_is_no_tokenizer_is_refused() {
    assert!(matches!(TextTokenizer::load("{}", 16), Err(LoadError::Malformed(_))));
    assert!(matches!(TextTokenizer::load(&WORDS.replace("1.0", "2.0"), 16), Err(LoadError::Malformed(_))));
    assert!(matches!(TextTokenizer::load("", 16), Err(LoadError::Unsupported)));
}

#[test]
fn a_cap_without_room_for_the_tokenizers_own_tokens_is_refused() {
    assert!(matches!(
        TextTokenizer::load(WORDS, 1),
        Err(LoadError::CapTooSmall { needed: 2 })
    ));
    assert_eq!(words(2).tokens("a quiet romance").unwrap().ids, vec![1, 2]);
}

#[test]
fn no_more_tokens_than_the_cap_reach_the_model() {
    let long = "a ".repeat(500);
    for cap in [2, 3, 16, 1024] {
        let tokens = words(cap).tokens(&long).unwrap();
        assert_eq!(tokens.ids.len(), cap.min(502));
        assert_eq!(tokens.mask.len(), tokens.ids.len());
        assert!(model_input(&tokens).is_some());
    }
}

/// A tokenizer without an unknown token complains of what it does not know.
#[test]
fn the_first_text_that_cannot_be_tokenized_ends_the_count() {
    let file = WORDS.replace("\"unk_token\": \"[UNK]\"", "\"unk_token\": \"[NONE]\"");
    let Ok(t) = TextTokenizer::load(&file, 16) else { panic!("not loaded") };
    assert_eq!(count_tokens(&t, &strings(&["a", "quiet"]), 500, 16), Ok(6));
    assert!(count_tokens(&t, &strings(&["a", "", "b", "quiet"]), 500, 16).is_err());
}

#[test]
fn tokens_are_counted_as_inference_will_see_them() {
    let texts = strings(&["a quiet romance", "", "  ", "a", "a a a a a a a a a a a a a a a a a a a a"]);
    assert_eq!(count_tokens(&words(16), &texts, 500, 16).unwrap(), 5 + 3 + 16);
    // Cut to six characters first: "a quie" is one known word and one unknown.
    assert_eq!(count_tokens(&words(16), &strings(&["a quiet romance"]), 6, 16).unwrap(), 4);
    assert_eq!(count_tokens(&words(16), &texts, 500, 4).unwrap(), 4 + 3 + 4);
    assert_eq!(count_tokens(&words(16), &strings(&["", " "]), 500, 16).unwrap(), 0);
}

#[test]
fn token_counts_are_capped_each_and_saturate_together() {
    assert_eq!(total_tokens(&vec![3, 600, 512], 512), 3 + 512 + 512);
    assert_eq!(total_tokens(&vec![], 512), 0);
    assert_eq!(total_tokens(&vec![usize::MAX, 5], usize::MAX), usize::MAX);
}

#[test]
fn a_batch_is_held_to_its_number_of_texts() {
    let cfg = Config { max_batch: 2, ..defaults() };
    assert!(matches!(batch_received(&cfg, &strings(&["a", "b"])), BatchStep::Count));
    match batch_received(&cfg, &strings(&["", "", ""])) {
        BatchStep::Refuse(e) => {
            assert_eq!(e.status, 413);
            assert_eq!(e.detail, "too many texts (max 2)");
        }
        _ => panic!("three texts were let through"),
    }
}

/// Nothing is counted for blank texts, so they are embedded where there is no model to count with.
#[test]
fn a_batch_of_blank_texts_needs_no_model() {
    assert!(matches!(batch_received(&defaults(), &strings(&["", " \t"])), BatchStep::Embed));
    assert!(matches!(batch_received(&defaults(), &Vec::new()), BatchStep::Embed));
    assert!(matches!(batch_received(&defaults(), &strings(&["", "x"])), BatchStep::Count));
}

#[test]
fn a_batch_is_held_to_its_number_of_tokens() {
    let cfg = defaults();
    assert!(matches!(batch_counted(&cfg, 16, 8192), BatchStep::Embed));
    match batch_counted(&cfg, 80, 40_960) {
        BatchStep::Refuse(e) => {
            assert_eq!(e.status, 413);
            assert_eq!(
                e.detail,
                "batch too large: 40960 tokens across 80 texts (max 8192 in total)"
            );
        }
        _ => panic!("40960 tokens were let through"),
    }
}
