//! Tests of the on-disk text formats, vocabulary construction, and the
//! corners of piece parsing.

use tokenizers::formats::{parse_merges, parse_token_lines};
use tokenizers::models::bpe::Bpe;
use tokenizers::models::vocab::Vocab;
use tokenizers::pieces::{Piece, Sequence};
use tokenizers::processing::TemplateProcessing;
use tokenizers::template::Template;

#[test]
fn merges_text_parses_in_order() {
    let text = "#version: 0.2\na b\nab c\n";
    let merges = parse_merges(text).unwrap();
    assert_eq!(
        merges,
        vec![
            ("a".to_string(), "b".to_string()),
            ("ab".to_string(), "c".to_string())
        ]
    );
}

#[test]
fn merges_text_rejects_bad_lines() {
    assert_eq!(
        parse_merges("a b c\n").err(),
        Some("invalid merge entry in merges text".to_string())
    );
    assert_eq!(
        parse_merges("lonely\n").err(),
        Some("invalid merge entry in merges text".to_string())
    );
}

#[test]
fn token_lines_number_in_file_order() {
    let text = "hello\nworld\n\n# a comment\nlast";
    let entries = parse_token_lines(text).unwrap();
    assert_eq!(
        entries,
        vec![
            ("hello".to_string(), 0),
            ("world".to_string(), 1),
            ("last".to_string(), 2)
        ]
    );
}

#[test]
fn vocab_rejects_duplicates() {
    let dup_token = Vocab::try_from_entries(vec![
        ("a".to_string(), 0),
        ("a".to_string(), 1),
    ]);
    assert_eq!(dup_token.err(), Some("duplicate token in vocabulary".to_string()));
    let dup_id = Vocab::try_from_entries(vec![
        ("a".to_string(), 0),
        ("b".to_string(), 0),
    ]);
    assert_eq!(dup_id.err(), Some("duplicate id in vocabulary".to_string()));
    assert!(Vocab::try_from_entries(vec![
        ("a".to_string(), 0),
        ("b".to_string(), 1),
    ])
    .is_ok());
}

#[test]
fn bpe_merge_resolution() {
    let vocab = Vocab::try_from_entries(vec![
        ("a".to_string(), 0),
        ("b".to_string(), 1),
        ("ab".to_string(), 2),
    ])
    .unwrap();
    let mut model = Bpe::from_vocab_and_merges(
        vocab,
        vec![("a".to_string(), "b".to_string())],
        None,
        None,
        None,
        false,
        false,
        false,
    )
    .unwrap();
    assert_eq!(model.tokenize("ab").len(), 1);
    assert_eq!(model.tokenize("ab")[0].id, 2);

    let vocab = Vocab::try_from_entries(vec![("a".to_string(), 0)]).unwrap();
    let missing = Bpe::from_vocab_and_merges(
        vocab,
        vec![("a".to_string(), "b".to_string())],
        None,
        None,
        None,
        false,
        false,
        false,
    );
    assert_eq!(missing.err(), Some("merge token out of vocabulary".to_string()));
}

#[test]
fn bpe_merge_resolution_strips_prefix() {
    // The merged entry is written without the right side's continuing
    // prefix, as the vocabulary spells it.
    let vocab = Vocab::try_from_entries(vec![
        ("h".to_string(), 0),
        ("##i".to_string(), 1),
        ("hi".to_string(), 2),
    ])
    .unwrap();
    let mut model = Bpe::from_vocab_and_merges(
        vocab,
        vec![("h".to_string(), "##i".to_string())],
        None,
        Some("##".to_string()),
        None,
        false,
        false,
        false,
    )
    .unwrap();
    let tokens = model.tokenize("hi");
    assert_eq!(tokens.len(), 1);
    assert_eq!(tokens[0].id, 2);
    assert_eq!(tokens[0].value, "hi");
}

#[test]
fn number_parsing_follows_unsigned_syntax() {
    // A leading plus sign is accepted, as unsigned parsing accepts it.
    assert_eq!(
        Piece::parse("$+3"),
        Ok(Piece::Sequence { id: Sequence::A, type_id: 3 })
    );
    assert_eq!(
        Piece::parse("$:+1"),
        Ok(Piece::Sequence { id: Sequence::A, type_id: 1 })
    );
    assert!(Piece::parse("$-1").is_err());
    assert!(Piece::parse("$1x").is_err());
}

#[test]
fn template_parse_reports_first_bad_part() {
    let err = Template::parse("[CLS] $C:x $D:y").err().unwrap();
    assert_eq!(err, "Cannot build Piece from string \"$C:x\"");
}

#[test]
fn builder_accepts_prebuilt_templates() {
    let single = Template::parse("$0").unwrap();
    let pair = Template::parse("$A $B:1").unwrap();
    let processor = TemplateProcessing::builder()
        .try_single("$0")
        .unwrap()
        .try_pair("$A $B:1")
        .unwrap()
        .build()
        .unwrap();
    assert_eq!(processor.get_single_template(), &single);
    assert_eq!(processor.get_pair(), &pair);
}
