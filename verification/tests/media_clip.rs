use facial::media_clip::{
    check_dims, decode_row, describe_picks, encode_row, model_paths, pick_output,
    preferred_output, resolve, second_input, ClipIndex, ClipTokenizer, TextIndex,
    TextSecondInput, CONTEXT_LEN, EOT, SOT,
};
use facial::paths::PathStyle;
use facial::table::Table;

fn words(list: &[&str]) -> Vec<String> {
    list.iter().map(|s| s.to_string()).collect()
}

fn bits(values: &[f32]) -> Vec<u32> {
    values.iter().map(|v| v.to_bits()).collect()
}

#[test]
fn embedding_row_round_trips_and_invalidates() {
    let mut index = ClipIndex::open(Table::new());
    let v = [0.5f32, -0.25, 0.8];
    index.put("shoot/a.jpg", 100, 2000, &bits(&v));
    let hit = index.get("shoot/a.jpg", 100, 2000).expect("cache hit");
    assert_eq!(hit.len(), 3);
    let read: Vec<f32> = hit.iter().map(|b| f32::from_bits(*b)).collect();
    assert_eq!(read, v);
    assert!(index.get("shoot/a.jpg", 101, 2000).is_none(), "mtime change invalidates");
    assert!(index.get("shoot/a.jpg", 100, 2001).is_none(), "size change invalidates");
    assert_eq!(index.len(), 1);
    assert!(!index.is_empty());
}

#[test]
fn resolve_reports_missing_models_as_fallback_detail() {
    let status = resolve(PathStyle::Unix, "/repo", &None, &None, |p: &str| {
        p == "/repo/product/assets/clip/bpe_simple_vocab_16e6.txt"
    });
    assert!(status.vocab.is_some(), "vendored vocab present");
    assert!(!status.ready());
    assert!(status.detail.contains("local fallback"));
    assert!(model_paths(&status).is_err());
    let all = resolve(PathStyle::Unix, "/repo", &Some("/v.onnx".to_string()), &None, |_: &str| true);
    assert!(all.ready());
    assert_eq!(all.detail, "clip models present");
    assert_eq!(model_paths(&all).unwrap().0, "/v.onnx");
}

fn tokenizer() -> ClipTokenizer {
    ClipTokenizer::load("#version\na b</w>\nc a\nca t</w>\n").expect("vocab loads")
}

#[test]
fn texts_become_framed_numbers() {
    let tok = tokenizer();
    let (ids, attn) = tok.encode("a t");
    assert_eq!(ids.len(), CONTEXT_LEN);
    assert_eq!(&ids[..4], &[SOT, 320, 339, EOT]);
    assert_eq!(ids[4], 0, "zero padded");
    assert_eq!(&attn[..4], &[1, 1, 1, 1]);
    assert_eq!(attn[4], 0);
    let (merged, _) = tok.encode("ab cat");
    assert_eq!(&merged[..4], &[SOT, 512, 514, EOT]);
    let (upper, _) = tok.encode("  AB CAT ");
    assert_eq!(upper, merged, "case does not matter");
    let (empty, _) = tok.encode("");
    assert_eq!(&empty[..2], &[SOT, EOT]);
    let (quoted, _) = tok.encode("t's7");
    assert_eq!(&quoted[..2], &[SOT, 339]);
    assert_eq!(quoted[5], EOT, "the word, its ending of two signs, the digit");
    assert_eq!(tok.encode_tokens(&words(&["ab", "cat"])).0, merged);
}

#[test]
fn long_texts_are_cut() {
    let (ids, attn) = tokenizer().encode(&"a ".repeat(200));
    assert_eq!(ids.len(), CONTEXT_LEN);
    assert_eq!(ids[CONTEXT_LEN - 1], EOT);
    assert!(ids[1..CONTEXT_LEN - 1].iter().all(|id| *id == 320));
    assert!(attn.iter().all(|a| *a == 1));
}

#[test]
fn bytes_beyond_ascii_have_characters_of_their_own() {
    // The byte 0x80 has no sign of its own, so it is shown as one further up.
    let (ids, _) = tokenizer().encode("€");
    assert_eq!(ids[4], EOT, "three bytes");
    assert!(ids[1..4].iter().all(|id| *id < 512));
}

#[test]
fn outputs_are_picked_by_name_or_shape() {
    let labels = words(&["last_hidden_state", "text_embeds"]);
    assert_eq!(preferred_output(&labels), Some(1));
    assert_eq!(preferred_output(&words(&["x"])), None);
    let shapes = vec![vec![1, 77, 512], vec![1, 512], vec![1, 640]];
    assert_eq!(pick_output(&shapes, Some(1)), Ok(1));
    assert_eq!(pick_output(&shapes, Some(0)), Ok(2));
    assert_eq!(pick_output(&shapes, None), Ok(2));
    assert!(pick_output(&vec![vec![1, 77, 512]], None).is_err());
}

#[test]
fn models_must_agree_on_their_length() {
    assert_eq!(check_dims(512, 512), Ok(512));
    assert!(check_dims(63, 63).is_err());
    assert_eq!(
        check_dims(512, 640).unwrap_err(),
        "clip encoder dim mismatch: text 512 vs image 640 — mixed exports?"
    );
}

#[test]
fn second_inputs_are_known_by_name() {
    assert_eq!(second_input(&words(&["input_ids"])), TextSecondInput::Absent);
    assert_eq!(second_input(&words(&["input_ids", "attention_mask"])), TextSecondInput::Mask);
    assert_eq!(second_input(&words(&["input_ids", "Position_IDs"])), TextSecondInput::Positions);
    assert_eq!(
        describe_picks(&words(&["a", "b"]), 1, TextSecondInput::Mask, &words(&["c"]), 0),
        "text→b (mask), image→c"
    );
}

#[test]
fn rows_are_little_endian() {
    let row = encode_row(1, 2, &vec![3]);
    assert_eq!(row.len(), 24);
    assert_eq!((row[0], row[8], row[16], row[20]), (1, 2, 1, 3));
    assert_eq!(decode_row(&row), Some((1, 2, vec![3])));
    assert_eq!(decode_row(&row[..23].to_vec()), None);
    assert_eq!(decode_row(&vec![]), None);
}

#[test]
fn text_indices_find_the_last_place() {
    let index = TextIndex::new(words(&["b", "a", "b"]));
    assert_eq!(index.find("b"), Some(2));
    assert_eq!(index.find("a"), Some(1));
    assert_eq!(index.find("c"), None);
}

#[test]
fn the_index_has_its_place() {
    let path = ClipIndex::index_path(PathStyle::Unix, "/ws");
    assert!(path.starts_with("/ws/.facial/"));
}
