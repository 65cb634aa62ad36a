use rinex::textdiff::TextDiff;

#[test]
fn textdiff_decompression() {
    let init = "ABCDEFG 12 000 33 XXACQmpLf";
    let mut diff = TextDiff::new(init);

    let compressed: Vec<&str> = vec![
        "         3   1 44 xxACq   F",
        "        4 ",
        " 11 22   x   0 4  y     p  ",
        "              1     ",
        "                   z",
        " ",
        "                           &",
        "&                           ",
        " ",
    ];

    let expected: Vec<&str> = vec![
        "ABCDEFG 13 001 44 xxACqmpLF",
        "ABCDEFG 43 001 44 xxACqmpLF",
        "A11D22G 4x 000 44 yxACqmpLF",
        "A11D22G 4x 000144 yxACqmpLF",
        "A11D22G 4x 000144 yzACqmpLF",
        "A11D22G 4x 000144 yzACqmpLF",
        "A11D22G 4x 000144 yzACqmpLF ",
        " 11D22G 4x 000144 yzACqmpLF ",
        " 11D22G 4x 000144 yzACqmpLF ",
    ];

    for i in 0..compressed.len() {
        let decompressed = diff.decompress(compressed[i]);

        assert_eq!(
            decompressed,
            expected[i],
            "failed for {}th \"{}\"",
            i + 1,
            compressed[i]
        );
    }

    // test re-init
    diff.force_init(" 2200 123      G 07G08G09G   XX XX");

    let masks: Vec<&str> = vec![
        "        F       1  3",
        " x    1 f  f   p",
        " ",
        "  3       4       ",
    ];
    let expected: Vec<&str> = vec![
        " 2200 12F      G107308G09G   XX XX",
        " x200 12f  f   p107308G09G   XX XX",
        " x200 12f  f   p107308G09G   XX XX",
        " x300 12f 4f   p107308G09G   XX XX",
    ];
    for i in 0..masks.len() {
        let mask = masks[i];
        let result = diff.decompress(mask);
        assert_eq!(result, expected[i].to_string(), "failed for [{}]{}", i, mask);
    }
}

#[test]
fn textdiff_compression() {
    let mut diff = TextDiff::new("0");

    assert_eq!(diff.compress("0"), " ");
    assert_eq!(diff.compress("4"), "4");
    assert_eq!(diff.compress("4"), " ");
    assert_eq!(diff.compress("44"), " 4");
    assert_eq!(diff.compress("4 "), " &");
    assert_eq!(diff.compress("4 "), "  ");
    assert_eq!(diff.compress("4  "), "  &");
    assert_eq!(diff.compress("0"), "0");
    assert_eq!(diff.compress("0"), " ");
    assert_eq!(diff.compress("   "), "&&&");

    diff.force_init("Default 1234");
    assert_eq!(diff.compress("DEfault 1234"), " E          ");
    assert_eq!(diff.compress("DEfault 1234"), "            ");
    assert_eq!(diff.compress("             "), "&&&&&&& &&&&&");
}

#[test]
fn textdiff_round_trip() {
    // One encoder and one decoder seeded with the same reference line: the
    // decoder recovers every line exactly, as long as no line shrinks and no
    // line holds the escape character.
    let init = "G01  22331816.181   117360111.17906";
    let mut enc = TextDiff::new(init);
    let mut dec = TextDiff::new(init);

    let lines: Vec<&str> = vec![
        "G01  22331821.703   117360140.88206",
        "G01  22331830.260   117360189.25406",
        "G01  22331838.861   117360237.64706",
        "G01  22331838.861   117360237.64706",
        "G01  22331847.411   117360286.03806 extra",
    ];

    for line in lines {
        let mask = enc.compress(line);
        assert_eq!(mask.len(), line.len());
        let recovered = dec.decompress(&mask);
        assert_eq!(recovered, line);
    }
}

#[test]
fn textdiff_identity_compression() {
    let mut diff = TextDiff::new("Default 1234");
    // A line identical to the history compresses to spaces only, of the same
    // length.
    assert_eq!(diff.compress("Default 1234"), "            ");
}

#[test]
fn textdiff_growth_escaping() {
    let mut diff = TextDiff::new("AB");
    // The grown tail " x" is literal, with its space escaped.
    assert_eq!(diff.compress("AB x"), "  &x");
}

#[test]
fn textdiff_shrink_truncation() {
    let mut diff = TextDiff::new("ABCDEF");
    // Shrinking discards the history suffix "DEF" for good.
    assert_eq!(diff.compress("ABC"), "   ");
    // A longer line again diffs against "ABC" only: the old suffix cannot be
    // recovered and the tail is emitted literally.
    assert_eq!(diff.compress("ABCDEF"), "   DEF");
}

#[test]
fn textdiff_escape_character_is_literal() {
    let mut diff = TextDiff::new("ab");
    // An '&' in the input line is passed through as a literal mask byte; a
    // decoder reads it back as a space, which is why round trips are only
    // promised for lines free of '&'.
    assert_eq!(diff.compress("a&"), " &");
}

#[test]
fn textdiff_default_is_empty() {
    let mut diff = TextDiff::default();
    // With no history, the whole first line is a literal tail with its
    // spaces escaped.
    assert_eq!(diff.compress("a b"), "a&b");
    assert_eq!(diff.compress("a b"), "   ");
}
