//! Conversions between bytes and their hexadecimal text.

use vstd::prelude::*;
use vstd::string::StringSliceAdditionalSpecFns;

verus! {

/// `String::push` appends one character.
pub assume_specification[ String::push ](s: &mut String, ch: char)
    ensures
        final(s)@ == old(s)@.push(ch),
;

/// The characters of `text` as a vector.
pub fn chars_of(text: &str) -> (chars: Vec<char>)
    ensures
        chars@ == text@,
{
    let mut chars: Vec<char> = Vec::new();
    for c in it: text.chars()
        invariant
            it.seq() == text@,
            chars@ == text@.take(it.index() as int),
    {
        chars.push(c);
    }
    chars
}

/// Whether `c` separates words: the characters with Unicode's White_Space property.
pub open spec fn is_space(c: char) -> bool {
    let n = c as u32;
    (0x09 <= n <= 0x0D) || n == 0x20 || n == 0x85 || n == 0xA0 || n == 0x1680 || (0x2000 <= n
        <= 0x200A) || n == 0x2028 || n == 0x2029 || n == 0x202F || n == 0x205F || n == 0x3000
}

/// Value of `c` as a hexadecimal digit of either case, if it is one.
pub open spec fn digit_value(c: char) -> Option<nat> {
    let n = c as u32;
    if 0x30 <= n <= 0x39 {
        Some((n - 0x30) as nat)
    } else if 0x41 <= n <= 0x46 {
        Some((n - 0x41 + 10) as nat)
    } else if 0x61 <= n <= 0x66 {
        Some((n - 0x61 + 10) as nat)
    } else {
        None
    }
}

/// Every character of `digits` is a hexadecimal digit.
pub open spec fn all_hex(digits: Seq<char>) -> bool {
    forall|i: int| 0 <= i < digits.len() ==> digit_value(#[trigger] digits[i]) is Some
}

/// The number that `digits` write in base 16, most significant digit first
/// (a character that is no digit counts as zero).
pub open spec fn hex_number(digits: Seq<char>) -> nat
    decreases digits.len(),
{
    if digits.len() == 0 {
        0
    } else {
        hex_number(digits.drop_last()) * 16 + match digit_value(digits.last()) {
            Some(v) => v,
            None => 0,
        }
    }
}

/// `word` without a leading plus sign.
pub open spec fn unsigned_part(word: Seq<char>) -> Seq<char> {
    if word.len() > 0 && word[0] == '+' {
        word.drop_first()
    } else {
        word
    }
}

/// The byte that `word` writes: an optional `+`, then one or more
/// hexadecimal digits whose value is at most 255. Anything else is no byte.
pub open spec fn word_value(word: Seq<char>) -> Option<u8> {
    let digits = unsigned_part(word);
    if digits.len() > 0 && all_hex(digits) && hex_number(digits) <= u8::MAX {
        Some(hex_number(digits) as u8)
    } else {
        None
    }
}

/// Length of the run of non-space characters at the front of `text`.
pub open spec fn word_len(text: Seq<char>) -> nat
    decreases text.len(),
{
    if text.len() == 0 || is_space(text[0]) {
        0
    } else {
        1 + word_len(text.drop_first())
    }
}

/// The bytes written in `text`: it is cut into words at white space, and
/// each word that writes a byte contributes it, in order; other words are
/// passed over.
pub open spec fn hex_bytes(text: Seq<char>) -> Seq<u8>
    decreases text.len(),
    via hex_bytes_decreases
{
    if text.len() == 0 {
        Seq::empty()
    } else if is_space(text[0]) {
        hex_bytes(text.drop_first())
    } else {
        let n = word_len(text);
        let rest = hex_bytes(text.skip(n as int));
        match word_value(text.take(n as int)) {
            Some(b) => seq![b] + rest,
            None => rest,
        }
    }
}

#[via_fn]
proof fn hex_bytes_decreases(text: Seq<char>) {
    if text.len() > 0 && !is_space(text[0]) {
        lemma_word_len_bounds(text);
    }
}

/// The word at the front is no longer than the text.
pub proof fn lemma_word_len_bounds(text: Seq<char>)
    ensures
        word_len(text) <= text.len(),
    decreases text.len(),
{
    if text.len() > 0 && !is_space(text[0]) {
        lemma_word_len_bounds(text.drop_first());
    }
}

/// A run of `n` non-space characters that ends at a space or at the end of
/// the text is the word at the front.
pub proof fn lemma_word_len(text: Seq<char>, n: int)
    requires
        0 <= n <= text.len(),
        forall|k: int| 0 <= k < n ==> !is_space(#[trigger] text[k]),
        n == text.len() || is_space(text[n]),
    ensures
        word_len(text) == n,
    decreases n,
{
    if n > 0 {
        let shorter = text.drop_first();
        assert(forall|k: int| 0 <= k < n - 1 ==> shorter[k] == text[k + 1]);
        lemma_word_len(shorter, n - 1);
    }
}

/// The value of a prefix of the digits never exceeds the value of all of them.
pub proof fn lemma_hex_number_prefix(digits: Seq<char>, k: int)
    requires
        0 <= k <= digits.len(),
    ensures
        hex_number(digits.take(k)) <= hex_number(digits),
    decreases digits.len() - k,
{
    if k < digits.len() {
        lemma_hex_number_prefix(digits, k + 1);
        assert(digits.take(k + 1).drop_last() =~= digits.take(k));
    } else {
        assert(digits.take(k) =~= digits);
    }
}

/// Whether `c` separates words.
pub fn is_separator(c: char) -> (space: bool)
    ensures
        space == is_space(c),
{
    let n: u32 = c as u32;
    (0x09 <= n && n <= 0x0D) || n == 0x20 || n == 0x85 || n == 0xA0 || n == 0x1680 || (0x2000
        <= n && n <= 0x200A) || n == 0x2028 || n == 0x2029 || n == 0x202F || n == 0x205F || n
        == 0x3000
}

/// Value of `c` as a hexadecimal digit, if it is one.
pub fn hex_digit_value(c: char) -> (value: Option<u8>)
    ensures
        match value {
            Some(v) => digit_value(c) == Some(v as nat) && v < 16,
            None => digit_value(c) is None,
        },
{
    let n: u32 = c as u32;
    if 0x30 <= n && n <= 0x39 {
        Some((n - 0x30) as u8)
    } else if 0x41 <= n && n <= 0x46 {
        Some((n - 0x41 + 10) as u8)
    } else if 0x61 <= n && n <= 0x66 {
        Some((n - 0x61 + 10) as u8)
    } else {
        None
    }
}

/// The byte written by the characters `chars[from..to]`, if they write one.
pub fn parse_hex_word(chars: &[char], from: usize, to: usize) -> (byte: Option<u8>)
    requires
        from <= to <= chars@.len(),
    ensures
        byte == word_value(chars@.subrange(from as int, to as int)),
{
    let ghost word = chars@.subrange(from as int, to as int);
    let mut i: usize = from;
    if from < to && chars[from] == '+' {
        i = from + 1;
    }
    let ghost digits = chars@.subrange(i as int, to as int);
    assert(digits =~= unsigned_part(word));
    if i == to {
        return None;
    }
    let start: usize = i;
    let mut acc: u32 = 0;
    while i < to
        invariant
            start <= i <= to <= chars@.len(),
            word == chars@.subrange(from as int, to as int),
            digits == chars@.subrange(start as int, to as int),
            digits == unsigned_part(word),
            digits.len() > 0,
            all_hex(digits.take(i - start)),
            acc == hex_number(digits.take(i - start)),
            acc <= u8::MAX,
        decreases to - i,
    {
        let ghost seen = digits.take(i - start);
        let ghost next = digits.take(i - start + 1);
        assert(next.drop_last() =~= seen);
        assert(next.last() == chars@[i as int]);
        match hex_digit_value(chars[i]) {
            Some(v) => {
                let wider: u32 = acc * 16 + v as u32;
                assert(wider == hex_number(next));
                if wider > 255 {
                    proof {
                        lemma_hex_number_prefix(digits, i - start + 1);
                    }
                    return None;
                }
                acc = wider;
                assert forall|k: int| 0 <= k < next.len() implies digit_value(
                    #[trigger] next[k],
                ) is Some by {
                    if k < seen.len() {
                        assert(next[k] == seen[k]);
                    }
                }
            },
            None => {
                assert(digits[i - start] == chars@[i as int]);
                assert(!all_hex(digits));
                return None;
            },
        }
        i += 1;
    }
    assert(digits.take(i - start) =~= digits);
    Some(acc as u8)
}

/// Parses text such as `"AA 55 03"` into bytes.
///
/// The text is cut into words at white space. A word made of hexadecimal
/// digits (either case, an optional leading `+`) with a value of at most 255
/// contributes that byte; any other word is passed over in silence.
pub fn hex_to_bytes(hex_str: &str) -> (bytes: Vec<u8>)
    ensures
        bytes@ == hex_bytes(hex_str@),
{
    let chars = chars_of(hex_str);
    let len: usize = chars.len();
    let mut bytes: Vec<u8> = Vec::new();
    let mut i: usize = 0;
    assert(chars@.skip(0) =~= chars@);
    assert(bytes@ + hex_bytes(chars@) =~= hex_bytes(chars@));
    while i < len
        invariant
            i <= len,
            len == chars@.len(),
            hex_bytes(chars@) == bytes@ + hex_bytes(chars@.skip(i as int)),
        decreases len - i,
    {
        let ghost here = chars@.skip(i as int);
        assert(here[0] == chars@[i as int]);
        if is_separator(chars[i]) {
            assert(here.drop_first() =~= chars@.skip(i + 1));
            i += 1;
        } else {
            let mut j: usize = i + 1;
            while j < len && !is_separator(chars[j])
                invariant
                    i < j <= len,
                    len == chars@.len(),
                    forall|k: int| i <= k < j ==> !is_space(#[trigger] chars@[k]),
                decreases len - j,
            {
                j += 1;
            }
            proof {
                assert(forall|k: int| 0 <= k < j - i ==> here[k] == chars@[i + k]);
                lemma_word_len(here, j - i);
                assert(here.take(j - i) =~= chars@.subrange(i as int, j as int));
                assert(here.skip(j - i) =~= chars@.skip(j as int));
            }
            let ghost before = bytes@;
            match parse_hex_word(chars.as_slice(), i, j) {
                Some(b) => {
                    bytes.push(b);
                    assert(bytes@ + hex_bytes(chars@.skip(j as int)) =~= before + (seq![b]
                        + hex_bytes(chars@.skip(j as int))));
                },
                None => {},
            }
            i = j;
        }
    }
    assert(bytes@ + Seq::<u8>::empty() =~= bytes@);
    bytes
}

/// The upper-case hexadecimal digit for `n`, which is below 16.
pub open spec fn hex_digit(n: int) -> char
    recommends
        0 <= n < 16,
{
    if n < 10 {
        (0x30 + n) as u8 as char
    } else {
        (0x37 + n) as u8 as char
    }
}

/// One byte as text: its two upper-case hexadecimal digits and a space.
pub open spec fn hex_pair(b: u8) -> Seq<char> {
    seq![hex_digit(b as int / 16), hex_digit(b as int % 16), ' ']
}

/// What stands before the byte at position `i` of a dump: a line break at
/// the start of every row of sixteen but the first.
pub open spec fn row_break(i: int) -> Seq<char> {
    if i > 0 && i % 16 == 0 {
        seq!['\n']
    } else {
        Seq::empty()
    }
}

/// The bytes as text on one line, every byte as `hex_pair` writes it.
pub open spec fn hex_line(bytes: Seq<u8>) -> Seq<char>
    decreases bytes.len(),
{
    if bytes.len() == 0 {
        Seq::empty()
    } else {
        hex_line(bytes.drop_last()) + hex_pair(bytes.last())
    }
}

/// The bytes as text in rows of sixteen: every byte as `hex_pair` writes it,
/// and a line break between one full row and the next.
pub open spec fn hex_rows(bytes: Seq<u8>) -> Seq<char>
    decreases bytes.len(),
{
    if bytes.len() == 0 {
        Seq::empty()
    } else {
        hex_rows(bytes.drop_last()) + row_break(bytes.len() - 1) + hex_pair(bytes.last())
    }
}

/// Every byte of `bytes` as the character with that code point.
pub open spec fn latin1(bytes: Seq<u8>) -> Seq<char> {
    bytes.map_values(|b: u8| b as char)
}

/// The upper-case hexadecimal digit for `n`.
pub fn hex_digit_char(n: u8) -> (c: char)
    requires
        n < 16,
    ensures
        c == hex_digit(n as int),
{
    if n < 10 {
        (0x30 + n) as char
    } else {
        (0x37 + n) as char
    }
}

/// Appends the two digits of `b` and a space to `out`.
pub fn push_hex_pair(out: &mut String, b: u8)
    ensures
        final(out)@ == old(out)@ + hex_pair(b),
{
    out.push(hex_digit_char(b / 16));
    out.push(hex_digit_char(b % 16));
    out.push(' ');
    assert(out@ =~= old(out)@ + hex_pair(b));
}

/// Writes bytes as upper-case hexadecimal text, `"AA 55 03 "`, with a line
/// break after every sixteenth byte that is not the last.
pub fn bytes_to_hex(bytes: &[u8]) -> (text: String)
    ensures
        text@ == hex_rows(bytes@),
{
    let mut text = String::new();
    let mut i: usize = 0;
    while i < bytes.len()
        invariant
            i <= bytes.len(),
            text@ == hex_rows(bytes@.take(i as int)),
        decreases bytes.len() - i,
    {
        let ghost so_far = text@;
        assert(bytes@.take(i + 1).drop_last() =~= bytes@.take(i as int));
        if i > 0 && i % 16 == 0 {
            text.push('\n');
        }
        assert(text@ =~= so_far + row_break(i as int));
        push_hex_pair(&mut text, bytes[i]);
        i += 1;
    }
    assert(bytes@.take(i as int) =~= bytes@);
    text
}

/// Writes bytes as upper-case hexadecimal text on a single line.
pub fn bytes_to_hex_line(bytes: &[u8]) -> (text: String)
    ensures
        text@ == hex_line(bytes@),
{
    let mut text = String::new();
    let mut i: usize = 0;
    while i < bytes.len()
        invariant
            i <= bytes.len(),
            text@ == hex_line(bytes@.take(i as int)),
        decreases bytes.len() - i,
    {
        assert(bytes@.take(i + 1).drop_last() =~= bytes@.take(i as int));
        push_hex_pair(&mut text, bytes[i]);
        i += 1;
    }
    assert(bytes@.take(i as int) =~= bytes@);
    text
}

/// Writes the UTF-8 bytes of `ascii_string` as hexadecimal text on a single line.
pub fn ascii_to_hex(ascii_string: &str) -> (text: String)
    ensures
        text@ == hex_line(ascii_string.spec_bytes()),
{
    bytes_to_hex_line(ascii_string.as_bytes())
}

/// Reads hexadecimal text as `hex_to_bytes` does and returns, for every byte
/// read, the character with that code point.
pub fn hex_to_ascii(hex_string: &str) -> (text: String)
    ensures
        text@ == latin1(hex_bytes(hex_string@)),
{
    let bytes = hex_to_bytes(hex_string);
    let mut text = String::new();
    let mut i: usize = 0;
    while i < bytes.len()
        invariant
            i <= bytes.len(),
            text@ == latin1(bytes@.take(i as int)),
        decreases bytes.len() - i,
    {
        text.push(bytes[i] as char);
        assert(text@ =~= latin1(bytes@.take(i + 1)));
        i += 1;
    }
    assert(bytes@.take(i as int) =~= bytes@);
    text
}

/// The text that `String::from_utf8_lossy` makes of `bytes`: valid UTF-8 is
/// decoded, and each invalid sequence becomes the replacement character.
pub uninterp spec fn lossy_text(bytes: Seq<u8>) -> Seq<char>;

/// Calls `String::from_utf8_lossy` and takes ownership of what it returns.
/// The result depends on the bytes alone; it is named `lossy_text`.
#[verifier::external_body]
fn decode_lossy(bytes: &[u8]) -> (text: String)
    ensures
        text@ == lossy_text(bytes@),
{
    String::from_utf8_lossy(bytes).into_owned()
}

/// `body` with a line break after it.
pub fn with_line_end(body: String) -> (line: String)
    ensures
        line@ == body@.push('\n'),
{
    let mut line = body;
    line.push('\n');
    line
}

/// What is shown for a run of received bytes, as a sequence of characters:
/// their hexadecimal text or their text as far as it can be decoded, and a
/// line break.
pub open spec fn shown(bytes: Seq<u8>, hex: bool) -> Seq<char> {
    if hex {
        hex_line(bytes).push('\n')
    } else {
        lossy_text(bytes).push('\n')
    }
}

/// The line shown for a run of received bytes.
pub fn display_line(bytes: &[u8], hex: bool) -> (line: String)
    ensures
        line@ == shown(bytes@, hex),
{
    if hex {
        with_line_end(bytes_to_hex_line(bytes))
    } else {
        with_line_end(decode_lossy(bytes))
    }
}

/// What `word_len` measures: no space before it, and a space or the end after it.
pub proof fn lemma_word_len_is_a_word(text: Seq<char>)
    ensures
        word_len(text) <= text.len(),
        forall|k: int| 0 <= k < word_len(text) ==> !is_space(#[trigger] text[k]),
        word_len(text) == text.len() || is_space(text[word_len(text) as int]),
    decreases text.len(),
{
    if text.len() > 0 && !is_space(text[0]) {
        let shorter = text.drop_first();
        lemma_word_len_is_a_word(shorter);
        assert forall|k: int| 0 <= k < word_len(text) implies !is_space(#[trigger] text[k]) by {
            if k > 0 {
                assert(text[k] == shorter[k - 1]);
            }
        }
        if word_len(text) < text.len() {
            assert(text[word_len(text) as int] == shorter[word_len(shorter) as int]);
        }
    }
}

/// Text that ends in a space can be read apart from what follows it.
pub proof fn lemma_hex_bytes_concat(front: Seq<char>, back: Seq<char>)
    requires
        front.len() == 0 || is_space(front.last()),
    ensures
        hex_bytes(front + back) == hex_bytes(front) + hex_bytes(back),
    decreases front.len(),
{
    let text = front + back;
    if front.len() == 0 {
        assert(text =~= back);
        assert(hex_bytes(front) + hex_bytes(back) =~= hex_bytes(back));
    } else if is_space(front[0]) {
        assert(text.drop_first() =~= front.drop_first() + back);
        if front.len() > 1 {
            assert(front.drop_first().last() == front.last());
        }
        lemma_hex_bytes_concat(front.drop_first(), back);
    } else {
        lemma_word_len_is_a_word(front);
        let n = word_len(front) as int;
        assert(n < front.len()) by {
            if n == front.len() {
                assert(!is_space(front[n - 1]));
            }
        }
        assert(forall|k: int| 0 <= k <= n ==> text[k] == front[k]);
        lemma_word_len(text, n);
        assert(text.take(n) =~= front.take(n));
        assert(text.skip(n) =~= front.skip(n) + back);
        assert(front.skip(n).last() == front.last());
        lemma_hex_bytes_concat(front.skip(n), back);
        let rest = hex_bytes(front.skip(n));
        match word_value(front.take(n)) {
            Some(b) => {
                assert(seq![b] + (rest + hex_bytes(back)) =~= (seq![b] + rest) + hex_bytes(back));
            },
            None => {},
        }
    }
}

/// The two digits written for a byte read back as that byte.
pub proof fn lemma_hex_pair_reads_back(b: u8)
    ensures
        hex_bytes(hex_pair(b)) == seq![b],
        hex_bytes(seq!['\n'] + hex_pair(b)) == seq![b],
{
    let high = hex_digit(b as int / 16);
    let low = hex_digit(b as int % 16);
    let word = seq![high, low];
    let pair = hex_pair(b);
    assert(digit_value(high) == Some((b as int / 16) as nat));
    assert(digit_value(low) == Some((b as int % 16) as nat));
    assert(!is_space(high) && !is_space(low));
    assert(word.len() == 2 && seq![high].len() == 1);
    assert(unsigned_part(word) == word);
    assert(word.drop_last() =~= seq![high]);
    assert(seq![high].drop_last() =~= Seq::<char>::empty());
    assert(hex_number(word) == b) by {
        reveal_with_fuel(hex_number, 3);
    }
    assert(word_value(word) == Some(b));
    assert(forall|k: int| 0 <= k < 2 ==> pair[k] == word[k]);
    lemma_word_len(pair, 2);
    assert(pair.take(2) =~= word);
    assert(pair.skip(2) =~= seq![' ']);
    assert(seq![' '].drop_first() =~= Seq::<char>::empty());
    assert(hex_bytes(seq![' ']) =~= Seq::<u8>::empty()) by {
        reveal_with_fuel(hex_bytes, 2);
    }
    assert(seq![b] + Seq::<u8>::empty() =~= seq![b]);
    let broken = seq!['\n'] + pair;
    assert(broken.len() == 4 && broken[0] == '\n');
    assert(is_space('\n'));
    assert(broken.drop_first() =~= pair);
    assert(hex_bytes(pair) == seq![b]);
    assert(hex_bytes(broken) == hex_bytes(broken.drop_first()));
}

/// Text written by `bytes_to_hex` reads back, with `hex_to_bytes`, as the
/// bytes it was written from; so does text written on a single line.
pub proof fn lemma_hex_text_reads_back(bytes: Seq<u8>)
    ensures
        hex_bytes(hex_rows(bytes)) == bytes,
        hex_bytes(hex_line(bytes)) == bytes,
        hex_rows(bytes).len() == 0 || is_space(hex_rows(bytes).last()),
        hex_line(bytes).len() == 0 || is_space(hex_line(bytes).last()),
    decreases bytes.len(),
{
    if bytes.len() > 0 {
        let init = bytes.drop_last();
        let cell = row_break(bytes.len() - 1) + hex_pair(bytes.last());
        lemma_hex_text_reads_back(init);
        lemma_hex_pair_reads_back(bytes.last());
        assert(hex_rows(bytes) =~= hex_rows(init) + cell);
        assert(cell =~= hex_pair(bytes.last()) || cell =~= seq!['\n'] + hex_pair(bytes.last()));
        lemma_hex_bytes_concat(hex_rows(init), cell);
        lemma_hex_bytes_concat(hex_line(init), hex_pair(bytes.last()));
        assert(init + seq![bytes.last()] =~= bytes);
    }
}

/// The tag of a log record: `RX` for received bytes, `TX` for sent ones.
pub open spec fn direction_tag(received: bool) -> Seq<char> {
    if received {
        "RX"@
    } else {
        "TX"@
    }
}

/// What every line of a log record begins with: `[stamp] RX: ` or `[stamp] TX: `.
pub open spec fn record_head(stamp: Seq<char>, received: bool) -> Seq<char> {
    seq!['['] + stamp + "] "@ + direction_tag(received) + ": "@
}

/// The two lines of a log record, given the text and the hex dump of its
/// bytes: `[stamp] RX: raw_data: text` and `[stamp] RX: dump`, each with a
/// line break after it.
pub open spec fn record_lines(stamp: Seq<char>, received: bool, text: Seq<char>, dump: Seq<char>) -> Seq<
    char,
> {
    record_head(stamp, received) + "raw_data: "@ + text + seq!['\n'] + record_head(stamp, received)
        + dump + seq!['\n']
}

/// Appends the beginning of a log line to `out`.
pub fn push_record_head(out: &mut String, stamp: &str, received: bool)
    ensures
        final(out)@ == old(out)@ + record_head(stamp@, received),
{
    out.push('[');
    out.append(stamp);
    out.append("] ");
    if received {
        out.append("RX");
    } else {
        out.append("TX");
    }
    out.append(": ");
    assert(out@ =~= old(out)@ + record_head(stamp@, received));
}

/// The two lines of a log record, given the text and the hex dump of its bytes.
pub fn format_record(stamp: &str, received: bool, text: &str, dump: &str) -> (lines: String)
    ensures
        lines@ == record_lines(stamp@, received, text@, dump@),
{
    let mut lines = String::new();
    push_record_head(&mut lines, stamp, received);
    lines.append("raw_data: ");
    lines.append(text);
    lines.push('\n');
    push_record_head(&mut lines, stamp, received);
    lines.append(dump);
    lines.push('\n');
    assert(lines@ =~= record_lines(stamp@, received, text@, dump@));
    lines
}

/// The log record for a run of bytes that was received or sent at the time
/// written in `stamp`: a line with the bytes as text, as far as they can be
/// decoded, and a line with their hex dump in rows of sixteen.
pub fn log_lines(stamp: &str, received: bool, data: &[u8]) -> (text: String)
    ensures
        text@ == record_lines(stamp@, received, lossy_text(data@), hex_rows(data@)),
{
    let decoded = decode_lossy(data);
    let dump = bytes_to_hex(data);
    format_record(stamp, received, decoded.as_str(), dump.as_str())
}

} // verus!
