//! Tests of the four tokenization models and their caches.

use tokenizers::models::bpe::Bpe;
use tokenizers::models::unigram::Unigram;
use tokenizers::models::vocab::Vocab;
use tokenizers::models::wordlevel::WordLevel;
use tokenizers::models::wordpiece::WordPiece;
use tokenizers::models::Model;
use tokenizers::Token;

fn vocab_of(entries: &[(&str, u32)]) -> Vocab {
    Vocab::from_entries(entries.iter().map(|(t, i)| (t.to_string(), *i)).collect())
}

#[test]
fn wordlevel_lookup() {
    let vocab = vocab_of(&[("hello", 0), ("world", 1), ("<unk>", 2)]);
    let model = WordLevel::new(vocab, "<unk>".to_string());
    assert_eq!(
        model.tokenize("hello"),
        vec![Token::new(0, "hello".into(), (0, 5))]
    );
    assert_eq!(
        model.tokenize("missing"),
        vec![Token::new(2, "<unk>".into(), (0, 7))]
    );
}

#[test]
fn wordlevel_no_unk() {
    let vocab = vocab_of(&[("hello", 0)]);
    let model = WordLevel::new(vocab, "<unk>".to_string());
    assert_eq!(model.tokenize("missing"), vec![]);
}

#[test]
fn wordpiece_greedy_longest_match() {
    let vocab = vocab_of(&[
        ("un", 0),
        ("##aff", 1),
        ("##able", 2),
        ("##ffa", 3),
        ("[UNK]", 4),
    ]);
    let model = WordPiece::new(vocab, "[UNK]".to_string(), "##".to_string(), 100);
    assert_eq!(
        model.tokenize("unaffable"),
        vec![
            Token::new(0, "un".into(), (0, 2)),
            Token::new(1, "##aff".into(), (2, 5)),
            Token::new(2, "##able".into(), (5, 9)),
        ]
    );
    // A position with no match resolves the whole word to the unknown token.
    assert_eq!(
        model.tokenize("unx"),
        vec![Token::new(4, "[UNK]".into(), (0, 3))]
    );
}

#[test]
fn wordpiece_length_bound() {
    let vocab = vocab_of(&[("ab", 0), ("[UNK]", 1)]);
    let model = WordPiece::new(vocab, "[UNK]".to_string(), "##".to_string(), 1);
    assert_eq!(
        model.tokenize("ab"),
        vec![Token::new(1, "[UNK]".into(), (0, 2))]
    );
}

fn small_bpe(ignore_merges: bool) -> Bpe {
    let vocab = vocab_of(&[
        ("a", 0),
        ("b", 1),
        ("c", 2),
        ("ab", 3),
        ("abc", 4),
    ]);
    // Pair (a, b) merges first into "ab", then (ab, c) into "abc".
    let merges = vec![((0, 1), (0, 3)), ((3, 2), (1, 4))];
    Bpe::new(vocab, merges, None, None, None, false, false, ignore_merges)
}

#[test]
fn bpe_merges_by_rank() {
    let mut model = small_bpe(false);
    assert_eq!(
        model.tokenize("abc"),
        vec![Token::new(4, "abc".into(), (0, 3))]
    );
    assert_eq!(
        model.tokenize("ba"),
        vec![
            Token::new(1, "b".into(), (0, 1)),
            Token::new(0, "a".into(), (1, 2)),
        ]
    );
}

#[test]
fn bpe_leftmost_merge_on_equal_rank() {
    let vocab = vocab_of(&[("a", 0), ("aa", 1)]);
    let merges = vec![((0, 0), (0, 1))];
    let mut model = Bpe::new(vocab, merges, None, None, None, false, false, false);
    // Three characters: the leftmost pair merges first.
    assert_eq!(
        model.tokenize("aaa"),
        vec![
            Token::new(1, "aa".into(), (0, 2)),
            Token::new(0, "a".into(), (2, 3)),
        ]
    );
}

#[test]
fn bpe_ignore_merges_bypasses_merge_search() {
    let mut model = small_bpe(true);
    // The whole word is in the vocabulary: one token, whatever the merges.
    assert_eq!(
        model.tokenize("ab"),
        vec![Token::new(3, "ab".into(), (0, 2))]
    );
    let mut without = small_bpe(false);
    assert_eq!(
        without.tokenize("ab"),
        vec![Token::new(3, "ab".into(), (0, 2))]
    );
}

#[test]
fn bpe_unknown_token_and_fusing() {
    let vocab = vocab_of(&[("a", 0), ("<unk>", 1)]);
    let mut fused = Bpe::new(
        vocab,
        vec![],
        Some("<unk>".to_string()),
        None,
        None,
        true,
        false,
        false,
    );
    assert_eq!(
        fused.tokenize("axya"),
        vec![
            Token::new(0, "a".into(), (0, 1)),
            Token::new(1, "<unk>".into(), (1, 3)),
            Token::new(0, "a".into(), (3, 4)),
        ]
    );
    let vocab = vocab_of(&[("a", 0), ("<unk>", 1)]);
    let mut unfused = Bpe::new(
        vocab,
        vec![],
        Some("<unk>".to_string()),
        None,
        None,
        false,
        false,
        false,
    );
    assert_eq!(
        unfused.tokenize("axya"),
        vec![
            Token::new(0, "a".into(), (0, 1)),
            Token::new(1, "<unk>".into(), (1, 2)),
            Token::new(1, "<unk>".into(), (2, 3)),
            Token::new(0, "a".into(), (3, 4)),
        ]
    );
}

#[test]
fn bpe_byte_fallback() {
    let vocab = vocab_of(&[("a", 0), ("<0x78>", 1)]);
    let mut model = Bpe::new(vocab, vec![], None, None, None, false, true, false);
    assert_eq!(
        model.tokenize("ax"),
        vec![
            Token::new(0, "a".into(), (0, 1)),
            Token::new(1, "<0x78>".into(), (1, 2)),
        ]
    );
}

#[test]
fn bpe_decorations() {
    let vocab = vocab_of(&[("h", 0), ("##i", 1), ("e</w>", 2)]);
    let mut model = Bpe::new(
        vocab,
        vec![],
        None,
        Some("##".to_string()),
        None,
        false,
        false,
        false,
    );
    assert_eq!(
        model.tokenize("hi"),
        vec![
            Token::new(0, "h".into(), (0, 1)),
            Token::new(1, "##i".into(), (1, 2)),
        ]
    );
    let vocab = vocab_of(&[("h", 0), ("e</w>", 1)]);
    let mut with_suffix = Bpe::new(
        vocab,
        vec![],
        None,
        None,
        Some("</w>".to_string()),
        false,
        false,
        false,
    );
    assert_eq!(
        with_suffix.tokenize("he"),
        vec![
            Token::new(0, "h".into(), (0, 1)),
            Token::new(1, "e</w>".into(), (1, 2)),
        ]
    );
}

#[test]
fn bpe_cache_idempotent_after_clear() {
    let mut model = small_bpe(false);
    model.clear_cache();
    assert_eq!(model.cache.len(), 0);
    let first = model.tokenize("abc");
    assert_eq!(model.cache.len(), 1);
    let second = model.tokenize("abc");
    assert_eq!(model.cache.len(), 1);
    assert_eq!(first, second);
}

#[test]
fn bpe_cache_resize_and_clear() {
    let mut model = small_bpe(false);
    model.tokenize("abc");
    model.tokenize("ba");
    assert_eq!(model.cache.len(), 2);
    model.resize_cache(1);
    assert_eq!(model.cache.len(), 0);
    model.tokenize("abc");
    model.tokenize("ba");
    assert_eq!(model.cache.len(), 1);
    model.clear_cache();
    assert_eq!(model.cache.len(), 0);
}

fn small_unigram() -> Unigram {
    // Ids index the cost table: "a" costs 10, "b" costs 10, "ab" costs 15,
    // "abc" costs 40, "<unk>" costs 100.
    let vocab = vocab_of(&[("a", 0), ("b", 1), ("ab", 2), ("abc", 3), ("<unk>", 4)]);
    Unigram::new(vocab, vec![10, 10, 15, 40, 100], Some(4), false)
}

#[test]
fn unigram_picks_minimum_cost_path() {
    let mut model = small_unigram();
    // "ab" as one piece costs 15, as two pieces 20.
    assert_eq!(
        model.tokenize("ab"),
        vec![Token::new(2, "ab".into(), (0, 2))]
    );
    // "abc": "ab"+"b"? no: "abc" whole costs 40, "ab"+unknown "c" costs
    // 15+100, "a"+"b"+unknown 120: the whole word wins.
    assert_eq!(
        model.tokenize("abc"),
        vec![Token::new(3, "abc".into(), (0, 3))]
    );
}

#[test]
fn unigram_prefers_longer_pieces_on_ties() {
    let vocab = vocab_of(&[("a", 0), ("b", 1), ("ab", 2)]);
    // "ab" costs the same as "a"+"b" minus one: tie at the last position
    // between ending with "ab" (cost 20) and ending with "b" (10+10): the
    // longer piece wins.
    let mut model = Unigram::new(vocab, vec![10, 10, 20], None, false);
    assert_eq!(
        model.tokenize("ab"),
        vec![Token::new(2, "ab".into(), (0, 2))]
    );
}

#[test]
fn unigram_unknown_fallback_and_uncovered() {
    let mut model = small_unigram();
    assert_eq!(
        model.tokenize("axb"),
        vec![
            Token::new(0, "a".into(), (0, 1)),
            Token::new(4, "x".into(), (1, 2)),
            Token::new(1, "b".into(), (2, 3)),
        ]
    );
    // Without an unknown id an uncovered word yields nothing.
    let vocab = vocab_of(&[("a", 0)]);
    let mut bare = Unigram::new(vocab, vec![10], None, false);
    assert_eq!(bare.tokenize("ax"), vec![]);
}

#[test]
fn unigram_byte_fallback() {
    let vocab = vocab_of(&[("a", 0), ("<0x78>", 1), ("<unk>", 2)]);
    let mut model = Unigram::new(vocab, vec![10, 10, 100], Some(2), true);
    assert_eq!(
        model.tokenize("ax"),
        vec![
            Token::new(0, "a".into(), (0, 1)),
            Token::new(1, "<0x78>".into(), (1, 2)),
        ]
    );
}

#[test]
fn unigram_cache_round_trip() {
    let mut model = small_unigram();
    model.clear_cache();
    let first = model.tokenize("ab");
    assert_eq!(model.cache.len(), 1);
    let second = model.tokenize("ab");
    assert_eq!(model.cache.len(), 1);
    assert_eq!(first, second);
}

#[test]
fn model_dispatch() {
    let vocab = vocab_of(&[("hello", 0), ("<unk>", 1)]);
    let mut model = Model::WordLevel(WordLevel::new(vocab, "<unk>".to_string()));
    assert_eq!(
        model.tokenize("hello"),
        vec![Token::new(0, "hello".into(), (0, 5))]
    );
    assert_eq!(model.token_to_id("hello"), Some(0));
    assert_eq!(model.token_to_id("nope"), None);
    assert_eq!(model.id_to_token(1), Some("<unk>".to_string()));
    assert_eq!(model.id_to_token(9), None);
    assert_eq!(model.get_vocab_size(), 2);
    assert_eq!(
        model.get_vocab(),
        &vec![("hello".to_string(), 0), ("<unk>".to_string(), 1)]
    );
}

#[test]
fn model_dispatch_bpe_cache_admin() {
    let mut model = Model::Bpe(small_bpe(false));
    model.tokenize("abc");
    model.clear_cache();
    model.resize_cache(5);
    assert_eq!(
        model.tokenize("abc"),
        vec![Token::new(4, "abc".into(), (0, 3))]
    );
}

#[test]
fn bpe_vocab_and_merges_must_come_together() {
    let only_vocab = Bpe::from_optional_vocab_and_merges(
        Some(vec![("a".to_string(), 0)]),
        None,
        None,
        None,
        None,
        false,
        false,
        false,
    );
    assert_eq!(
        only_vocab.err(),
        Some("`vocab` and `merges` must be both specified".to_string())
    );
    let only_merges = Bpe::from_optional_vocab_and_merges(
        None,
        Some(vec![("a".to_string(), "b".to_string())]),
        None,
        None,
        None,
        false,
        false,
        false,
    );
    assert_eq!(
        only_merges.err(),
        Some("`vocab` and `merges` must be both specified".to_string())
    );
    let neither =
        Bpe::from_optional_vocab_and_merges(None, None, None, None, None, false, false, false);
    assert!(neither.is_ok());
}

#[test]
fn unigram_vocab_and_unk_must_come_together() {
    let only_unk = Unigram::from_optional_vocab(None, Some(0), false);
    assert_eq!(
        only_unk.err(),
        Some("`vocab` and `unk_id` must be both specified".to_string())
    );
    let neither = Unigram::from_optional_vocab(None, None, false);
    assert!(neither.is_ok());
    let both = Unigram::from_optional_vocab(
        Some((vec![("a".to_string(), 0)], vec![10])),
        Some(0),
        false,
    );
    assert!(both.is_ok());
}

#[test]
fn unigram_unk_id_must_lie_in_vocabulary() {
    let out_of_bounds = Unigram::from_optional_vocab(
        Some((vec![("a".to_string(), 0)], vec![10])),
        Some(1),
        false,
    );
    assert_eq!(
        out_of_bounds.err(),
        Some("`unk_id` is out of vocabulary bounds".to_string())
    );
    let in_bounds = Unigram::from_optional_vocab(
        Some((vec![("a".to_string(), 0)], vec![10])),
        Some(0),
        false,
    );
    assert!(in_bounds.is_ok());
}
