//! Y. Hatanaka lossless TextDiff algorithm.

use vstd::prelude::*;
use vstd::string::is_ascii;

use crate::text::chars_to_string;
use crate::text::str_chars;

verus! {

/// What one decoded character is: a space in the mask keeps the previous
/// value, `&` stands for a literal space (escaped because a plain space is
/// reserved for "unchanged"), and anything else replaces the previous value.
pub open spec fn decoded_char(prev: char, m: char) -> char {
    if m == ' ' {
        prev
    } else if m == '&' {
        ' '
    } else {
        m
    }
}

/// The full line recovered by decoding `mask` against the history `hist`.
/// Positions past the history have no previous value: there the mask byte is
/// taken literally, with `&` still decoding to a space. Positions past the
/// mask keep their previous value; a mask shorter than the history does not
/// truncate it.
pub open spec fn decode_spec(hist: Seq<char>, mask: Seq<char>) -> Seq<char> {
    Seq::new(
        if mask.len() > hist.len() {
            mask.len()
        } else {
            hist.len()
        },
        |i: int|
            if i < mask.len() {
                decoded_char(
                    if i < hist.len() {
                        hist[i]
                    } else {
                        mask[i]
                    },
                    mask[i],
                )
            } else {
                hist[i]
            },
    )
}

/// What one mask character is: a space when the line agrees with the history
/// at this position, `&` when the line holds a space that differs from the
/// history, and the literal new character otherwise.
pub open spec fn encoded_char(prev: char, c: char) -> char {
    if c == prev {
        ' '
    } else if c == ' ' {
        '&'
    } else {
        c
    }
}

/// The escaping applied to the part of the line that grows past the history:
/// there is no previous value to diff against, so a space cannot mean
/// "unchanged" and is escaped to `&`; every other character passes as is.
pub open spec fn escaped_tail_char(c: char) -> char {
    if c == ' ' {
        '&'
    } else {
        c
    }
}

/// The mask produced by encoding `line` against the history `hist`: the same
/// length as the line, a per-position diff where the two overlap, and the
/// escaped literal tail where the line grows past the history.
pub open spec fn encode_spec(hist: Seq<char>, line: Seq<char>) -> Seq<char> {
    Seq::new(
        line.len(),
        |i: int|
            if i < hist.len() {
                encoded_char(hist[i], line[i])
            } else {
                escaped_tail_char(line[i])
            },
    )
}

/// True when the line is free of the escape character `&`. The scheme
/// reserves `&` for escaped spaces, so only such lines survive a round trip
/// unchanged.
pub open spec fn escape_free(line: Seq<char>) -> bool {
    forall|i: int| 0 <= i < line.len() ==> line[i] != '&'
}

/// Round trip, one step: a mask produced by encoding `line` against the
/// history `hist` decodes, against that same history, back to `line` exactly,
/// provided the line is at least as long as the history and free of the
/// escape character.
pub proof fn lemma_round_trip(hist: Seq<char>, line: Seq<char>)
    requires
        hist.len() <= line.len(),
        escape_free(line),
    ensures
        decode_spec(hist, encode_spec(hist, line)) == line,
{
    let mask = encode_spec(hist, line);
    assert forall|i: int| 0 <= i < line.len() implies decode_spec(hist, mask)[i] == line[i] by {
        assert(line[i] != '&');
    }
    assert(decode_spec(hist, mask) =~= line);
}

/// The masks an encoder emits for the stream of lines `lines`, starting from
/// the history `hist`: each line is encoded against the previous line, the
/// first against `hist`.
pub open spec fn encode_stream(hist: Seq<char>, lines: Seq<Seq<char>>) -> Seq<Seq<char>>
    decreases lines.len(),
{
    if lines.len() == 0 {
        Seq::empty()
    } else {
        seq![encode_spec(hist, lines[0])] + encode_stream(lines[0], lines.skip(1))
    }
}

/// The lines a decoder recovers from the stream of masks `masks`, starting
/// from the history `hist`: each recovered line is the history for the next
/// mask.
pub open spec fn decode_stream(hist: Seq<char>, masks: Seq<Seq<char>>) -> Seq<Seq<char>>
    decreases masks.len(),
{
    if masks.len() == 0 {
        Seq::empty()
    } else {
        let line = decode_spec(hist, masks[0]);
        seq![line] + decode_stream(line, masks.skip(1))
    }
}

/// Round trip over a whole stream: a decoder seeded with the same reference
/// line as the encoder recovers every line exactly from the masks, provided
/// no line shrinks below its predecessor and every line is free of the
/// escape character.
pub proof fn lemma_round_trip_stream(hist: Seq<char>, lines: Seq<Seq<char>>)
    requires
        lines.len() > 0 ==> hist.len() <= lines[0].len(),
        forall|k: int| #![trigger lines[k]] 0 <= k && k + 1 < lines.len() ==> lines[k].len() <= lines[k + 1].len(),
        forall|k: int| 0 <= k < lines.len() ==> escape_free(#[trigger] lines[k]),
    ensures
        decode_stream(hist, encode_stream(hist, lines)) == lines,
    decreases lines.len(),
{
    if lines.len() > 0 {
        let masks = encode_stream(hist, lines);
        lemma_round_trip(hist, lines[0]);
        assert(masks.skip(1) =~= encode_stream(lines[0], lines.skip(1)));
        assert forall|k: int| #![trigger lines.skip(1)[k]] 0 <= k && k + 1 < lines.skip(1).len()
            implies lines.skip(1)[k].len() <= lines.skip(1)[k + 1].len() by {
            assert(lines.skip(1)[k] == lines[k + 1]);
            assert(lines.skip(1)[k + 1] == lines[k + 2]);
            assert(lines[k + 1].len() <= lines[k + 2].len());
        }
        assert forall|k: int| 0 <= k < lines.skip(1).len() implies escape_free(
            #[trigger] lines.skip(1)[k],
        ) by {
            assert(escape_free(lines[k + 1]));
        }
        lemma_round_trip_stream(lines[0], lines.skip(1));
        assert(decode_stream(hist, masks) =~= lines);
    }
}

/// Identity compression: encoding a line identical to the current history
/// yields a mask of the same length made of spaces only.
pub proof fn lemma_identity_compression(hist: Seq<char>)
    ensures
        encode_spec(hist, hist) == Seq::new(hist.len(), |i: int| ' '),
{
    assert(encode_spec(hist, hist) =~= Seq::new(hist.len(), |i: int| ' '));
}

/// Space escaping: where the new line holds a space and the history holds
/// something else, the mask holds `&` at that position, never a literal
/// space.
pub proof fn lemma_space_escaping(hist: Seq<char>, line: Seq<char>, i: int)
    requires
        0 <= i < line.len(),
        i < hist.len(),
        line[i] == ' ',
        hist[i] != ' ',
    ensures
        encode_spec(hist, line)[i] == '&',
{
}

/// Growth escaping: encoding a line longer than the history appends the
/// literal tail, with every space in that tail escaped to `&`.
pub proof fn lemma_growth_escaping(hist: Seq<char>, line: Seq<char>, i: int)
    requires
        hist.len() <= i < line.len(),
    ensures
        encode_spec(hist, line)[i] == escaped_tail_char(line[i]),
        line[i] == ' ' ==> encode_spec(hist, line)[i] == '&',
        line[i] != ' ' ==> encode_spec(hist, line)[i] == line[i],
{
}

/// Shrink truncation: once a shorter line has been encoded, the history is
/// that shorter line, and the discarded suffix is gone for good — a later,
/// longer line is diffed against the shorter line only, and past its end the
/// mask is the escaped literal tail, whatever the discarded suffix held.
pub proof fn lemma_shrink_discards(hist: Seq<char>, short: Seq<char>, long: Seq<char>)
    requires
        short.len() < hist.len(),
        short.len() <= long.len(),
    ensures
        forall|i: int|
            short.len() <= i < long.len() ==> encode_spec(short, long)[i] == escaped_tail_char(
                long[i],
            ),
{
}

/// [TextDiff] is a structure that implements the text differential algorithm
/// designed by Y. Hatanaka, a lossless compression scheme for streams of
/// repetitive ASCII lines. It holds the last full line of one stream (the
/// history) and either compresses a new full line into a difference mask or
/// decompresses a mask back into the full line, updating the history as it
/// goes. One instance must be dedicated to a single direction: interleaving
/// `compress` and `decompress` calls on the same instance is not meaningful.
#[derive(Debug)]
pub struct TextDiff {
    buffer: Vec<char>,
}

impl View for TextDiff {
    type V = Seq<char>;

    /// The history: the last full line known for the stream.
    closed spec fn view(&self) -> Seq<char> {
        self.buffer@
    }
}

impl Default for TextDiff {
    /// Starts with an empty history: a first compressed line is emitted
    /// whole, as an escaped literal tail.
    fn default() -> (r: Self)
        ensures
            r@ == Seq::<char>::empty(),
    {
        proof {
            reveal_strlit("");
            assert(""@ =~= Seq::<char>::empty());
        }
        Self::new("")
    }
}

impl TextDiff {
    /// Creates a new [TextDiff] seeded with the given reference line.
    pub fn new(data: &str) -> (r: Self)
        requires
            is_ascii(data),
        ensures
            r@ == data@,
    {
        Self { buffer: str_chars(data) }
    }

    /// Force kernel reset using new content: the history is replaced
    /// wholesale, discarding all prior state.
    pub fn force_init(&mut self, data: &str)
        requires
            is_ascii(data),
        ensures
            final(self)@ == data@,
    {
        self.buffer = str_chars(data);
    }

    /// Decompresses given data. Returns the recovered full line, which also
    /// becomes the new history.
    pub fn decompress(&mut self, data: &str) -> (r: String)
        requires
            is_ascii(data),
        ensures
            r@ == decode_spec(old(self)@, data@),
            final(self)@ == decode_spec(old(self)@, data@),
    {
        let mask = str_chars(data);
        let n = mask.len();
        let h = self.buffer.len();
        let total = if n > h {
            n
        } else {
            h
        };
        let mut out: Vec<char> = Vec::new();
        let mut i: usize = 0;
        while i < total
            invariant
                i <= total,
                n == mask@.len(),
                mask@ == data@,
                h == self.buffer@.len(),
                self.buffer@ == old(self)@,
                total == decode_spec(old(self)@, data@).len(),
                out@ == decode_spec(old(self)@, data@).subrange(0, i as int),
            decreases total - i,
        {
            let c: char;
            if i < n {
                let m = mask[i];
                let prev = if i < h {
                    self.buffer[i]
                } else {
                    m
                };
                c = if m == ' ' {
                    prev
                } else if m == '&' {
                    ' '
                } else {
                    m
                };
            } else {
                c = self.buffer[i];
            }
            out.push(c);
            proof {
                assert(out@ =~= decode_spec(old(self)@, data@).subrange(0, i + 1 as int));
            }
            i += 1;
        }
        proof {
            assert(out@ =~= decode_spec(old(self)@, data@));
        }
        let r = chars_to_string(&out);
        self.buffer = out;
        r
    }

    /// Compresses given data using the TextDiff algorithm. Returns the mask;
    /// the full input line becomes the new history. When the line is shorter
    /// than the history, the history suffix beyond the new length is
    /// permanently discarded.
    pub fn compress(&mut self, data: &str) -> (r: String)
        requires
            is_ascii(data),
        ensures
            r@ == encode_spec(old(self)@, data@),
            final(self)@ == data@,
    {
        let line = str_chars(data);
        let n = line.len();
        let h = self.buffer.len();
        let mut mask: Vec<char> = Vec::new();
        let mut i: usize = 0;
        while i < n
            invariant
                i <= n,
                n == line@.len(),
                line@ == data@,
                h == self.buffer@.len(),
                self.buffer@ == old(self)@,
                mask@ == encode_spec(old(self)@, data@).subrange(0, i as int),
            decreases n - i,
        {
            let c = line[i];
            let m: char;
            if i < h {
                let prev = self.buffer[i];
                m = if c == prev {
                    ' '
                } else if c == ' ' {
                    '&'
                } else {
                    c
                };
            } else {
                m = if c == ' ' {
                    '&'
                } else {
                    c
                };
            }
            mask.push(m);
            proof {
                assert(mask@ =~= encode_spec(old(self)@, data@).subrange(0, i + 1 as int));
            }
            i += 1;
        }
        self.buffer = line;
        proof {
            assert(mask@ =~= encode_spec(old(self)@, data@));
        }
        chars_to_string(&mask)
    }
}

} // verus!

