use textgen::capability::Sampler;
use textgen::index::dedup_first;
use textgen::index::weight_files;
use textgen::penalty::apply_repeat_penalty;
use textgen::sampler::GreedySampler;

#[test]
fn weight_files_deduplicates_in_map_order() {
    let doc = br#"{"weight_map":{"a":"f1.safetensors","b":"f2.safetensors","c":"f1.safetensors"}}"#;
    let files = weight_files(&doc.to_vec()).expect("a well-formed index");
    assert_eq!(files, vec![b"f1.safetensors".to_vec(), b"f2.safetensors".to_vec()]);
}

#[test]
fn weight_files_skips_non_string_values() {
    let doc = br#"{"weight_map":{"a":"f1","b":7,"c":"f2"}}"#;
    let files = weight_files(&doc.to_vec()).expect("a well-formed index");
    assert_eq!(files, vec![b"f1".to_vec(), b"f2".to_vec()]);
}

#[test]
fn weight_files_rejects_missing_map() {
    assert_eq!(weight_files(&br#"{"other":1}"#.to_vec()), None);
    assert_eq!(weight_files(&br#"{"weight_map":"not a map"}"#.to_vec()), None);
    assert_eq!(weight_files(&b"not json at all".to_vec()), None);
}

#[test]
fn dedup_keeps_first_occurrences() {
    let xs = vec![vec![1u8], vec![2], vec![1], vec![3], vec![2]];
    assert_eq!(dedup_first(&xs), vec![vec![1u8], vec![2], vec![3]]);
    let empty: Vec<Vec<u8>> = Vec::new();
    assert_eq!(dedup_first(&empty), empty);
}

#[test]
fn greedy_sampler_takes_first_maximum() {
    let mut s = GreedySampler { seed: 0 };
    assert_eq!(s.sample(&vec![1i64, 5, 5, 2]), Ok(1));
    assert_eq!(s.sample(&vec![-3i64, -1, -2]), Ok(1));
    assert_eq!(s.sample(&vec![7i64]), Ok(0));
    assert!(s.sample(&Vec::new()).is_err());
}

#[test]
fn repeat_penalty_exact_values() {
    // Positive scores divide by the scale, negative ones multiply; each
    // recent token is penalized once, others stay untouched.
    let out = apply_repeat_penalty(&vec![1000i64, 2000, -3000], &vec![1u32, 1, 2], 2000);
    assert_eq!(out, vec![1000i64, 1000, -6000]);
    // A recent token id beyond the vocabulary leaves the logits unchanged.
    let out = apply_repeat_penalty(&vec![5i64, 6], &vec![9u32], 2000);
    assert_eq!(out, vec![5i64, 6]);
    // A scale below 1.0 amplifies a positive score.
    let out = apply_repeat_penalty(&vec![10i64], &vec![0u32], 500);
    assert_eq!(out, vec![20i64]);
}
