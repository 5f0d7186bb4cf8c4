//! Tests of the template mini-language and the template post-processor.

use tokenizers::encoding::Encoding;
use tokenizers::pieces::{Piece, Sequence};
use tokenizers::processing::TemplateProcessing;
use tokenizers::special::SpecialToken;
use tokenizers::Token;

#[test]
fn piece() {
    assert_eq!(
        Ok(Piece::Sequence { id: Sequence::A, type_id: 0 }),
        Piece::parse("$")
    );
    assert_eq!(
        Ok(Piece::Sequence { id: Sequence::B, type_id: 0 }),
        Piece::parse("$B")
    );
    assert_eq!(
        Ok(Piece::Sequence { id: Sequence::A, type_id: 1 }),
        Piece::parse("$1")
    );
    assert_eq!(
        Ok(Piece::Sequence { id: Sequence::B, type_id: 2 }),
        Piece::parse("$B:2")
    );
    assert_eq!(
        Ok(Piece::Sequence { id: Sequence::A, type_id: 1 }),
        Piece::parse("$:1")
    );
    assert!(Piece::parse("$C:1").is_err());
    assert!(Piece::parse("$A:").is_err());
}

#[test]
fn piece_canonical_round_trip() {
    for s in ["$", "$B", "$1", "$B:2", "$:1", "[CLS]", "[SEP]:1", "word"] {
        let first = Piece::parse(s).unwrap();
        let canonical = first.to_piece_string();
        let second = Piece::parse(&canonical).unwrap();
        assert_eq!(first, second);
    }
}

#[test]
fn special_token_lengths() {
    let ok = SpecialToken::new(
        "[2FR]".into(),
        vec![1, 2, 3],
        vec!["convert".into(), "to".into(), "FR".into()],
    );
    assert!(ok.is_ok());
    let malformed = SpecialToken::new(
        "[2FR]".into(),
        vec![1, 2],
        vec!["convert".into(), "to".into(), "FR".into()],
    );
    assert!(malformed.is_err());
    let malformed = SpecialToken::new(
        "[2FR]".into(),
        vec![1, 2, 3],
        vec!["convert".into(), "FR".into()],
    );
    assert!(malformed.is_err());
}

fn get_bert_template() -> TemplateProcessing {
    TemplateProcessing::builder()
        .try_single_list(&vec!["[CLS]".to_string(), "$0".to_string(), "[SEP]".to_string()])
        .unwrap()
        .try_pair("[CLS]:0 $A:0 [SEP]:0 $B:1 [SEP]:1")
        .unwrap()
        .special_tokens(vec![
            SpecialToken::from_pair("[CLS]", 1),
            SpecialToken::from_pair("[SEP]", 0),
        ])
        .build()
        .unwrap()
}

#[test]
fn missing_special_tokens() {
    let processor = TemplateProcessing::builder()
        .try_single("[CLS] $0 [SEP]")
        .unwrap()
        .try_pair("[CLS] $A:0 [SEP] $B:1 [SEP]")
        .unwrap()
        .build();
    let err = processor.err().unwrap();
    assert!(
        err == "Missing SpecialToken(s) with id(s) `[SEP], [CLS]`"
            || err == "Missing SpecialToken(s) with id(s) `[CLS], [SEP]`"
    );
}

#[test]
fn pair_must_use_both_sequences() {
    let processor = TemplateProcessing::builder()
        .try_single("$0")
        .unwrap()
        .try_pair("$0 $1")
        .unwrap()
        .build();
    assert_eq!(
        processor.err(),
        Some("Template for `pair` must use both sequences".to_string())
    );
}

#[test]
fn expect_wrong_error_message() {
    let processor = TemplateProcessing::builder()
        .try_single("$0")
        .unwrap()
        .try_pair("$0 $1")
        .unwrap()
        .build();
    assert_ne!(
        processor.err(),
        Some("Expect the left side error message to be different from the right side!".to_string())
    );
}

#[test]
fn template_processing() {
    let processor = get_bert_template();
    assert_eq!(processor.added_tokens(false), 2);
    assert_eq!(processor.added_tokens(true), 3);

    let encoding = Encoding::from_tokens(
        vec![
            Token::new(12, "Hello".into(), (0, 5)),
            Token::new(14, "there".into(), (6, 11)),
        ],
        0,
    );
    let pair = Encoding::from_tokens(vec![Token::new(15, "pair".into(), (0, 4))], 0);
    let single_encoding = processor.process(encoding.clone(), None, true);
    assert_eq!(
        single_encoding,
        Encoding::new(
            vec![1, 12, 14, 0],
            vec![0, 0, 0, 0],
            vec![
                "[CLS]".into(),
                "Hello".into(),
                "there".into(),
                "[SEP]".into()
            ],
            vec![None, None, None, None],
            vec![(0, 0), (0, 5), (6, 11), (0, 0)],
            vec![1, 0, 0, 1],
            vec![1, 1, 1, 1],
            vec![],
            Some((1, 3)),
            None,
        )
    );
    assert_eq!(single_encoding.token_to_sequence(2), Some(0));
    assert_eq!(single_encoding.token_to_sequence(3), None);
    let pair_encoding = processor.process(encoding, Some(pair), true);
    assert_eq!(
        pair_encoding,
        Encoding::new(
            vec![1, 12, 14, 0, 15, 0],
            vec![0, 0, 0, 0, 1, 1],
            vec![
                "[CLS]".into(),
                "Hello".into(),
                "there".into(),
                "[SEP]".into(),
                "pair".into(),
                "[SEP]".into()
            ],
            vec![None, None, None, None, None, None],
            vec![(0, 0), (0, 5), (6, 11), (0, 0), (0, 4), (0, 0)],
            vec![1, 0, 0, 1, 0, 1],
            vec![1, 1, 1, 1, 1, 1],
            vec![],
            Some((1, 3)),
            Some((4, 5)),
        )
    );
    assert_eq!(pair_encoding.token_to_sequence(2), Some(0));
    assert_eq!(pair_encoding.token_to_sequence(3), None);
    assert_eq!(pair_encoding.token_to_sequence(4), Some(1));
    assert_eq!(pair_encoding.token_to_sequence(5), None);
}

#[test]
fn template_processing_overflowing() {
    let processor = get_bert_template();
    assert_eq!(processor.added_tokens(false), 2);
    assert_eq!(processor.added_tokens(true), 3);

    let mut encoding = Encoding::from_tokens(
        vec![
            Token::new(12, "Hello".into(), (0, 5)),
            Token::new(14, "there".into(), (6, 11)),
        ],
        0,
    );
    let overflowing = Encoding::from_tokens(vec![Token::new(13, "you".into(), (12, 15))], 0);
    encoding.set_overflowing(vec![overflowing]);

    let mut pair = Encoding::from_tokens(
        vec![
            Token::new(15, "pair".into(), (0, 4)),
            Token::new(16, "with".into(), (5, 9)),
        ],
        0,
    );
    let pair_overflowing = Encoding::from_tokens(vec![Token::new(17, "info".into(), (10, 14))], 0);
    pair.set_overflowing(vec![pair_overflowing]);

    let single_encoding = processor.process(encoding.clone(), None, true);
    assert_eq!(
        single_encoding,
        Encoding::new(
            vec![1, 12, 14, 0],
            vec![0, 0, 0, 0],
            vec![
                "[CLS]".into(),
                "Hello".into(),
                "there".into(),
                "[SEP]".into()
            ],
            vec![None, None, None, None],
            vec![(0, 0), (0, 5), (6, 11), (0, 0)],
            vec![1, 0, 0, 1],
            vec![1, 1, 1, 1],
            vec![Encoding::new(
                vec![1, 13, 0],
                vec![0, 0, 0],
                vec!["[CLS]".into(), "you".into(), "[SEP]".into()],
                vec![None, None, None],
                vec![(0, 0), (12, 15), (0, 0)],
                vec![1, 0, 1],
                vec![1, 1, 1],
                vec![],
                Some((1, 2)),
                None,
            )],
            Some((1, 3)),
            None,
        )
    );
    assert_eq!(single_encoding.token_to_sequence(2), Some(0));
    assert_eq!(single_encoding.token_to_sequence(3), None);
    let pair_encoding = processor.process(encoding, Some(pair), true);
    assert_eq!(
        pair_encoding,
        Encoding::new(
            vec![1, 12, 14, 0, 15, 16, 0],
            vec![0, 0, 0, 0, 1, 1, 1],
            vec![
                "[CLS]".into(),
                "Hello".into(),
                "there".into(),
                "[SEP]".into(),
                "pair".into(),
                "with".into(),
                "[SEP]".into()
            ],
            vec![None, None, None, None, None, None, None],
            vec![(0, 0), (0, 5), (6, 11), (0, 0), (0, 4), (5, 9), (0, 0)],
            vec![1, 0, 0, 1, 0, 0, 1],
            vec![1, 1, 1, 1, 1, 1, 1],
            vec![
                Encoding::new(
                    vec![1, 13, 0, 15, 16, 0],
                    vec![0, 0, 0, 1, 1, 1],
                    vec![
                        "[CLS]".into(),
                        "you".into(),
                        "[SEP]".into(),
                        "pair".into(),
                        "with".into(),
                        "[SEP]".into()
                    ],
                    vec![None, None, None, None, None, None],
                    vec![(0, 0), (12, 15), (0, 0), (0, 4), (5, 9), (0, 0)],
                    vec![1, 0, 1, 0, 0, 1],
                    vec![1, 1, 1, 1, 1, 1],
                    vec![Encoding::new(
                        vec![1, 13, 0, 17, 0],
                        vec![0, 0, 0, 0, 1],
                        vec![
                            "[CLS]".into(),
                            "you".into(),
                            "[SEP]".into(),
                            "info".into(),
                            "[SEP]".into()
                        ],
                        vec![None, None, None, None, None],
                        vec![(0, 0), (12, 15), (0, 0), (10, 14), (0, 0)],
                        vec![1, 0, 1, 0, 1],
                        vec![1, 1, 1, 1, 1],
                        vec![],
                        Some((1, 2)),
                        Some((3, 4)),
                    )],
                    Some((1, 2)),
                    Some((3, 5)),
                ),
                Encoding::new(
                    vec![1, 13, 0, 17, 0],
                    vec![0, 0, 0, 0, 1],
                    vec![
                        "[CLS]".into(),
                        "you".into(),
                        "[SEP]".into(),
                        "info".into(),
                        "[SEP]".into()
                    ],
                    vec![None, None, None, None, None],
                    vec![(0, 0), (12, 15), (0, 0), (10, 14), (0, 0)],
                    vec![1, 0, 1, 0, 1],
                    vec![1, 1, 1, 1, 1],
                    vec![],
                    Some((1, 2)),
                    Some((3, 4)),
                ),
                Encoding::new(
                    vec![1, 12, 14, 0, 17, 0],
                    vec![0, 0, 0, 0, 0, 1],
                    vec![
                        "[CLS]".into(),
                        "Hello".into(),
                        "there".into(),
                        "[SEP]".into(),
                        "info".into(),
                        "[SEP]".into()
                    ],
                    vec![None, None, None, None, None, None],
                    vec![(0, 0), (0, 5), (6, 11), (0, 0), (10, 14), (0, 0)],
                    vec![1, 0, 0, 1, 0, 1],
                    vec![1, 1, 1, 1, 1, 1],
                    vec![Encoding::new(
                        vec![1, 13, 0, 17, 0],
                        vec![0, 0, 0, 0, 1],
                        vec![
                            "[CLS]".into(),
                            "you".into(),
                            "[SEP]".into(),
                            "info".into(),
                            "[SEP]".into()
                        ],
                        vec![None, None, None, None, None],
                        vec![(0, 0), (12, 15), (0, 0), (10, 14), (0, 0)],
                        vec![1, 0, 1, 0, 1],
                        vec![1, 1, 1, 1, 1],
                        vec![],
                        Some((1, 2)),
                        Some((3, 4)),
                    )],
                    Some((1, 3)),
                    Some((4, 5)),
                )
            ],
            Some((1, 3)),
            Some((4, 6)),
        )
    );
    assert_eq!(pair_encoding.token_to_sequence(2), Some(0));
    assert_eq!(pair_encoding.token_to_sequence(3), None);
    assert_eq!(pair_encoding.token_to_sequence(4), Some(1));
    assert_eq!(pair_encoding.token_to_sequence(5), Some(1));
    assert_eq!(pair_encoding.token_to_sequence(6), None);
}

#[test]
fn added_tokens_counts() {
    let processor = get_bert_template();
    assert_eq!(processor.added_tokens(false), 2);
    assert_eq!(processor.added_tokens(true), 3);
}

#[test]
fn no_special_tokens_requested() {
    let processor = get_bert_template();
    let encoding = Encoding::from_tokens(
        vec![
            Token::new(12, "Hello".into(), (0, 5)),
            Token::new(14, "there".into(), (6, 11)),
        ],
        0,
    );
    let out = processor.process(encoding, None, false);
    assert_eq!(out.get_ids(), &vec![12, 14]);
    assert_eq!(out.get_type_ids(), &vec![0, 0]);
    assert_eq!(out.get_special_tokens_mask(), &vec![0, 0]);
    assert_eq!(out.sequence_range(0), Some((0, 2)));
}

#[test]
fn template_canonical_string() {
    let processor = get_bert_template();
    assert_eq!(processor.get_single(), "[CLS]:0 $A:0 [SEP]:0");
    assert_eq!(
        processor.get_pair().to_template_string(),
        "[CLS]:0 $A:0 [SEP]:0 $B:1 [SEP]:1"
    );
}

#[test]
fn piece_parse_errors() {
    let err = Piece::parse("$A:B").err().unwrap();
    assert_eq!(err, "Cannot build Piece from string \"$A:B\"");
    assert!(Piece::parse("a:b:c").is_err());
}
