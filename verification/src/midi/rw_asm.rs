//! Reading and writing a line-based textual form of Standard MIDI Files.

use vstd::prelude::*;

use crate::midi::model::{
    ChannelValueMessage, Control, ControlChangeMessage, Event, EventData, EventDataModel,
    EventModel, FileHeader, KnownMaxValue, Message, MetaEventData, MetaType, MidiEventData,
    NoteMessage, PitchBendMessage, ProgramChangeMessage, SmfFormat, SmfModel, SongPositionData,
    SongSelectData, StandardMidiFile, SysExEventData, SystemEventData, TimeCodeData, Track, U14,
    U3, U4, U7,
};

verus! {

/// What can go wrong while reading or writing the textual form.
#[derive(Debug)]
pub enum Error {
    Io(std::io::Error),
    TrackCountMismatch { header: u16, file: usize },
    ExpectedHeader { line_number: usize, expected_mnemonic: &'static str, obtained_mnemonic: String },
    WrongArgumentCount { line_number: usize, mnemonic: &'static str, expected: usize, obtained: usize },
    InvalidInteger { line_number: usize, integer_string: String },
    IntegerTooLarge { line_number: usize, value: u64, max_value: u64 },
    IntegerTooSmall { line_number: usize, value: i64, min_value: i64 },
    UnknownMnemonic { line_number: usize, mnemonic: String },
}

/// An error with its strings as character sequences.
pub enum ErrorModel {
    Io,
    TrackCountMismatch { header: u16, file: usize },
    ExpectedHeader { line_number: usize, expected_mnemonic: Seq<char>, obtained_mnemonic: Seq<char> },
    WrongArgumentCount { line_number: usize, mnemonic: Seq<char>, expected: usize, obtained: usize },
    InvalidInteger { line_number: usize, integer_string: Seq<char> },
    IntegerTooLarge { line_number: usize, value: u64, max_value: u64 },
    IntegerTooSmall { line_number: usize, value: i64, min_value: i64 },
    UnknownMnemonic { line_number: usize, mnemonic: Seq<char> },
}

impl View for Error {
    type V = ErrorModel;

    open spec fn view(&self) -> ErrorModel {
        match self {
            Error::Io(_) => ErrorModel::Io,
            Error::TrackCountMismatch { header, file } => ErrorModel::TrackCountMismatch { header: *header, file: *file },
            Error::ExpectedHeader { line_number, expected_mnemonic, obtained_mnemonic } => ErrorModel::ExpectedHeader {
                line_number: *line_number,
                expected_mnemonic: expected_mnemonic@,
                obtained_mnemonic: obtained_mnemonic@,
            },
            Error::WrongArgumentCount { line_number, mnemonic, expected, obtained } => ErrorModel::WrongArgumentCount {
                line_number: *line_number,
                mnemonic: mnemonic@,
                expected: *expected,
                obtained: *obtained,
            },
            Error::InvalidInteger { line_number, integer_string } => ErrorModel::InvalidInteger {
                line_number: *line_number,
                integer_string: integer_string@,
            },
            Error::IntegerTooLarge { line_number, value, max_value } => ErrorModel::IntegerTooLarge {
                line_number: *line_number,
                value: *value,
                max_value: *max_value,
            },
            Error::IntegerTooSmall { line_number, value, min_value } => ErrorModel::IntegerTooSmall {
                line_number: *line_number,
                value: *value,
                min_value: *min_value,
            },
            Error::UnknownMnemonic { line_number, mnemonic } => ErrorModel::UnknownMnemonic {
                line_number: *line_number,
                mnemonic: mnemonic@,
            },
        }
    }
}

impl Error {
    /// `Ok` when a line of `chunks_len` chunks holds a mnemonic and `expected` arguments.
    pub fn ensure_args(line_number: usize, mnemonic: &'static str, expected: usize, chunks_len: usize) -> (r: Result<(), Self>)
        requires
            chunks_len > 0,
        ensures
            r is Ok <==> chunks_len - 1 == expected,
            r matches Err(e) ==> e@ == (ErrorModel::WrongArgumentCount {
                line_number,
                mnemonic: mnemonic@,
                expected,
                obtained: (chunks_len - 1) as usize,
            }),
    {
        if chunks_len - 1 == expected {
            Ok(())
        } else {
            Err(Error::WrongArgumentCount { line_number, mnemonic, expected, obtained: chunks_len - 1 })
        }
    }
}

// ---------------------------------------------------------------------------------------------
// Characters and lines
// ---------------------------------------------------------------------------------------------

/// Unicode's White_Space characters, those that `char::is_whitespace` accepts.
pub open spec fn is_ws(c: char) -> bool {
    ||| '\u{9}' <= c <= '\u{D}'
    ||| c == ' '
    ||| c == '\u{85}'
    ||| c == '\u{A0}'
    ||| c == '\u{1680}'
    ||| '\u{2000}' <= c <= '\u{200A}'
    ||| c == '\u{2028}'
    ||| c == '\u{2029}'
    ||| c == '\u{202F}'
    ||| c == '\u{205F}'
    ||| c == '\u{3000}'
}

fn char_is_whitespace(c: char) -> (r: bool)
    ensures
        r == is_ws(c),
{
    ('\u{9}' <= c && c <= '\u{D}') || c == ' ' || c == '\u{85}' || c == '\u{A0}' || c == '\u{1680}'
        || ('\u{2000}' <= c && c <= '\u{200A}') || c == '\u{2028}' || c == '\u{2029}' || c == '\u{202F}'
        || c == '\u{205F}' || c == '\u{3000}'
}

/// The characters of `text`.
fn text_chars(text: &str) -> (r: Vec<char>)
    ensures
        r@ == text@,
{
    let mut out: Vec<char> = Vec::new();
    for c in iter: text.chars()
        invariant
            out@ == iter.seq().take(iter.index() as int),
            iter.seq() == text@,
    {
        out.push(c);
    }
    out
}

/// Folding whitespace from `s` on: leading and trailing whitespace dropped, every inner run of
/// whitespace replaced by one space. `started` tells whether anything was kept before, `pending`
/// whether whitespace was seen since.
pub open spec fn fold_from(s: Seq<char>, started: bool, pending: bool) -> Seq<char>
    decreases s.len(),
{
    if s.len() == 0 {
        seq![]
    } else if is_ws(s[0]) {
        fold_from(s.drop_first(), started, started)
    } else {
        (if pending { seq![' '] } else { seq![] }) + seq![s[0]] + fold_from(s.drop_first(), true, false)
    }
}

/// `s` without leading and trailing whitespace, and with every inner run of whitespace replaced
/// by a single space.
pub open spec fn fold_ws(s: Seq<char>) -> Seq<char> {
    fold_from(s, false, false)
}

/// Splitting `s` at every space, with `cur` the part of the current piece before `s`.
pub open spec fn split_from(s: Seq<char>, cur: Seq<char>) -> Seq<Seq<char>>
    decreases s.len(),
{
    if s.len() == 0 {
        seq![cur]
    } else if s[0] == ' ' {
        seq![cur] + split_from(s.drop_first(), seq![])
    } else {
        split_from(s.drop_first(), cur.push(s[0]))
    }
}

/// The pieces of `s` between spaces.
pub open spec fn split_spaces(s: Seq<char>) -> Seq<Seq<char>> {
    split_from(s, seq![])
}

/// The index of the first `c` in `s`, or the length of `s`.
pub open spec fn find_char(s: Seq<char>, c: char) -> nat
    decreases s.len(),
{
    if s.len() == 0 {
        0
    } else if s[0] == c {
        0
    } else {
        1 + find_char(s.drop_first(), c)
    }
}

/// The line without its comment, which starts at the first '#'.
pub open spec fn strip_comment(line: Seq<char>) -> Seq<char> {
    line.take(find_char(line, '#') as int)
}

/// The length of the first line of `t`, its newline included.
pub open spec fn line_len(t: Seq<char>) -> nat {
    if find_char(t, '\n') < t.len() {
        find_char(t, '\n') + 1
    } else {
        t.len()
    }
}

/// The lines of `t`, each with its newline; the last may lack one.
pub open spec fn text_lines(t: Seq<char>) -> Seq<Seq<char>>
    decreases t.len(),
{
    if t.len() == 0 {
        seq![]
    } else {
        let n = line_len(t);
        if 0 < n <= t.len() {
            seq![t.take(n as int)] + text_lines(t.skip(n as int))
        } else {
            seq![t]
        }
    }
}

pub(crate) proof fn lemma_find_char_bound(s: Seq<char>, c: char)
    ensures
        find_char(s, c) <= s.len(),
        find_char(s, c) < s.len() ==> s[find_char(s, c) as int] == c,
        forall|i: int| 0 <= i < find_char(s, c) ==> #[trigger] s[i] != c,
    decreases s.len(),
{
    if s.len() > 0 && s[0] != c {
        lemma_find_char_bound(s.drop_first(), c);
        assert forall|i: int| 0 <= i < find_char(s, c) implies #[trigger] s[i] != c by {
            if i > 0 {
                assert(s[i] == s.drop_first()[i - 1]);
            }
        }
    }
}

pub(crate) proof fn lemma_find_char_index(s: Seq<char>, c: char, k: int)
    requires
        0 <= k <= s.len(),
        k < s.len() ==> s[k] == c,
        forall|i: int| 0 <= i < k ==> #[trigger] s[i] != c,
    ensures
        find_char(s, c) == k,
    decreases s.len(),
{
    if s.len() > 0 && k > 0 {
        assert(s[0] != c);
        assert forall|i: int| 0 <= i < k - 1 implies #[trigger] s.drop_first()[i] != c by {
            assert(s.drop_first()[i] == s[i + 1]);
        }
        lemma_find_char_index(s.drop_first(), c, k - 1);
    }
}

/// Folds whitespace: strips leading and trailing whitespace and compresses every other run of
/// whitespace into a single U+0020.
fn fold_whitespace(s: &mut Vec<char>)
    ensures
        final(s)@ == fold_ws(old(s)@),
{
    let ghost orig = s@;
    let mut out: Vec<char> = Vec::new();
    let mut started = false;
    let mut pending = false;
    let mut i: usize = 0;
    assert(orig.skip(0) =~= orig);
    while i < s.len()
        invariant
            s@ == orig,
            i <= orig.len(),
            fold_ws(orig) == out@ + fold_from(orig.skip(i as int), started, pending),
        decreases orig.len() - i,
    {
        let c = s[i];
        assert(orig.skip(i as int).drop_first() =~= orig.skip(i + 1));
        if char_is_whitespace(c) {
            pending = started;
        } else {
            let ghost before = out@;
            if pending {
                out.push(' ');
            }
            out.push(c);
            proof {
                let rest = fold_from(orig.skip(i + 1), true, false);
                assert(before + ((if pending { seq![' '] } else { seq![] }) + seq![c] + rest) =~= out@ + rest);
            }
            started = true;
            pending = false;
        }
        i += 1;
    }
    proof {
        assert(out@ + fold_from(orig.skip(i as int), started, pending) =~= out@);
    }
    *s = out;
}

/// The views of a sequence of character vectors.
pub open spec fn char_vec_views(v: Seq<Vec<char>>) -> Seq<Seq<char>> {
    v.map_values(|x: Vec<char>| x@)
}

/// Splits `s` at every space.
fn split_at_spaces(s: &Vec<char>) -> (r: Vec<Vec<char>>)
    ensures
        char_vec_views(r@) == split_spaces(s@),
{
    let mut chunks: Vec<Vec<char>> = Vec::new();
    let mut cur: Vec<char> = Vec::new();
    let mut i: usize = 0;
    assert(s@.skip(0) =~= s@);
    while i < s.len()
        invariant
            i <= s@.len(),
            split_spaces(s@) == char_vec_views(chunks@) + split_from(s@.skip(i as int), cur@),
        decreases s@.len() - i,
    {
        let c = s[i];
        assert(s@.skip(i as int).drop_first() =~= s@.skip(i + 1));
        if c == ' ' {
            let ghost before = char_vec_views(chunks@);
            let piece = cur;
            let ghost piece_view = piece@;
            chunks.push(piece);
            cur = Vec::new();
            proof {
                assert(char_vec_views(chunks@) =~= before.push(piece_view));
                assert(before + (seq![piece_view] + split_from(s@.skip(i + 1), seq![])) =~= before.push(piece_view)
                    + split_from(s@.skip(i + 1), seq![]));
                assert(cur@ =~= Seq::<char>::empty());
            }
        } else {
            cur.push(c);
        }
        i += 1;
    }
    let ghost before = char_vec_views(chunks@);
    let last = cur;
    let ghost last_view = last@;
    chunks.push(last);
    proof {
        assert(char_vec_views(chunks@) =~= before.push(last_view));
        assert(before + seq![last_view] =~= before.push(last_view));
    }
    chunks
}

/// Whether the chunk reads `m`.
fn chunk_is(chunk: &[char], m: &str) -> (r: bool)
    ensures
        r == (chunk@ == m@),
{
    let n = m.unicode_len();
    if chunk.len() != n {
        return false;
    }
    let mut i: usize = 0;
    while i < n
        invariant
            n == m@.len(),
            n == chunk@.len(),
            i <= n,
            forall|k: int| 0 <= k < i ==> #[trigger] chunk@[k] == m@[k],
        decreases n - i,
    {
        if chunk[i] != m.get_char(i) {
            return false;
        }
        i += 1;
    }
    proof {
        assert(chunk@ =~= m@);
    }
    true
}

// ---------------------------------------------------------------------------------------------
// Numbers
// ---------------------------------------------------------------------------------------------

/// The value of a digit character in any radix up to 36; 36 for anything else.
pub open spec fn digit_value(c: char) -> nat {
    if '0' <= c <= '9' {
        (c as int - '0' as int) as nat
    } else if 'a' <= c <= 'z' {
        (c as int - 'a' as int + 10) as nat
    } else if 'A' <= c <= 'Z' {
        (c as int - 'A' as int + 10) as nat
    } else {
        36
    }
}

/// The value of the digits `s` in radix `radix`; `None` when one of them is no digit of it.
pub open spec fn digits_value(s: Seq<char>, radix: nat) -> Option<nat>
    decreases s.len(),
{
    if s.len() == 0 {
        Some(0)
    } else {
        match digits_value(s.drop_last(), radix) {
            None => None,
            Some(v) => if digit_value(s.last()) < radix {
                Some(v * radix + digit_value(s.last()))
            } else {
                None
            },
        }
    }
}

/// What `u64::from_str_radix` gives: an optional '+', then at least one digit, and a value that
/// fits.
pub open spec fn from_str_radix_u64(s: Seq<char>, radix: nat) -> Option<u64> {
    let d = if s.len() > 0 && s[0] == '+' { s.drop_first() } else { s };
    if d.len() == 0 {
        None
    } else {
        match digits_value(d, radix) {
            Some(v) => if v <= u64::MAX { Some(v as u64) } else { None },
            None => None,
        }
    }
}

/// What `i64::from_str_radix` gives: an optional sign, then at least one digit, and a value that
/// fits.
pub open spec fn from_str_radix_i64(s: Seq<char>, radix: nat) -> Option<i64> {
    let negative = s.len() > 0 && s[0] == '-';
    let d = if s.len() > 0 && (s[0] == '+' || s[0] == '-') { s.drop_first() } else { s };
    if d.len() == 0 {
        None
    } else {
        match digits_value(d, radix) {
            Some(v) => if negative {
                if v <= 0x8000_0000_0000_0000 { Some((-v) as i64) } else { None }
            } else {
                if v <= i64::MAX { Some(v as i64) } else { None }
            },
            None => None,
        }
    }
}

/// `s` without its underscores.
pub open spec fn without_underscores(s: Seq<char>) -> Seq<char>
    decreases s.len(),
{
    if s.len() == 0 {
        seq![]
    } else if s.last() == '_' {
        without_underscores(s.drop_last())
    } else {
        without_underscores(s.drop_last()).push(s.last())
    }
}

/// Whether `s` begins with '0' and then `c`.
pub open spec fn has_radix_prefix(s: Seq<char>, c: char) -> bool {
    s.len() >= 2 && s[0] == '0' && s[1] == c
}

/// An unsigned integer: underscores are ignored, "0x" introduces hexadecimal and "0b" binary
/// digits, anything else is decimal.
pub open spec fn parse_unsigned_spec(s: Seq<char>) -> Option<u64> {
    let t = without_underscores(s);
    if has_radix_prefix(t, 'x') {
        from_str_radix_u64(t.skip(2), 16)
    } else if has_radix_prefix(t, 'b') {
        from_str_radix_u64(t.skip(2), 2)
    } else {
        from_str_radix_u64(t, 10)
    }
}

/// A signed integer, written as `parse_unsigned_spec` reads unsigned ones.
pub open spec fn parse_signed_spec(s: Seq<char>) -> Option<i64> {
    let t = without_underscores(s);
    if has_radix_prefix(t, 'x') {
        from_str_radix_i64(t.skip(2), 16)
    } else if has_radix_prefix(t, 'b') {
        from_str_radix_i64(t.skip(2), 2)
    } else {
        from_str_radix_i64(t, 10)
    }
}

pub(crate) proof fn lemma_digits_value_prefix(s: Seq<char>, radix: nat, i: int)
    requires
        0 <= i <= s.len(),
        radix > 0,
        digits_value(s, radix) is Some,
    ensures
        digits_value(s.take(i), radix) is Some,
        digits_value(s.take(i), radix)->0 <= digits_value(s, radix)->0,
    decreases s.len(),
{
    if i == s.len() {
        assert(s.take(i) =~= s);
    } else {
        let p = s.drop_last();
        lemma_digits_value_prefix(p, radix, i);
        assert(p.take(i) =~= s.take(i));
        let v = digits_value(p, radix)->0;
        assert(v <= v * radix + digit_value(s.last())) by (nonlinear_arith)
            requires radix > 0;
    }
}

fn digit_value_exec(c: char) -> (r: u32)
    ensures
        r == digit_value(c),
{
    if '0' <= c && c <= '9' {
        (c as u32) - ('0' as u32)
    } else if 'a' <= c && c <= 'z' {
        (c as u32) - ('a' as u32) + 10
    } else if 'A' <= c && c <= 'Z' {
        (c as u32) - ('A' as u32) + 10
    } else {
        36
    }
}

/// The value of the digits `d` in radix `radix` when it is at most `limit`.
fn digits_up_to(d: &[char], radix: u32, limit: u64) -> (r: Option<u64>)
    requires
        2 <= radix <= 16,
    ensures
        r == (match digits_value(d@, radix as nat) {
            Some(v) => if v <= limit { Some(v as u64) } else { None::<u64> },
            None => None::<u64>,
        }),
{
    let mut acc: u64 = 0;
    let mut i: usize = 0;
    assert(d@.take(0) =~= Seq::<char>::empty());
    while i < d.len()
        invariant
            2 <= radix <= 16,
            i <= d@.len(),
            digits_value(d@.take(i as int), radix as nat) == Some(acc as nat),
            acc <= limit,
        decreases d@.len() - i,
    {
        let c = d[i];
        let dv = digit_value_exec(c);
        assert(d@.take(i + 1).drop_last() =~= d@.take(i as int));
        assert(d@.take(i + 1).last() == c);
        if dv >= radix {
            proof {
                if digits_value(d@, radix as nat) is Some {
                    lemma_digits_value_prefix(d@, radix as nat, i + 1);
                }
            }
            return None;
        }
        assert(acc as u128 * radix as u128 <= 0x10_0000_0000_0000_0000u128) by (nonlinear_arith)
            requires
                radix <= 16,
                acc <= 0xFFFF_FFFF_FFFF_FFFFu64,
        ;
        let next: u128 = acc as u128 * radix as u128 + dv as u128;
        if next > limit as u128 {
            proof {
                if digits_value(d@, radix as nat) is Some {
                    lemma_digits_value_prefix(d@, radix as nat, i + 1);
                }
            }
            return None;
        }
        acc = next as u64;
        i += 1;
    }
    assert(d@.take(i as int) =~= d@);
    Some(acc)
}

/// `s` without its underscores.
fn remove_underscores(s: &[char]) -> (r: Vec<char>)
    ensures
        r@ == without_underscores(s@),
{
    let mut out: Vec<char> = Vec::new();
    let mut i: usize = 0;
    assert(s@.take(0) =~= Seq::<char>::empty());
    while i < s.len()
        invariant
            i <= s@.len(),
            out@ == without_underscores(s@.take(i as int)),
        decreases s@.len() - i,
    {
        assert(s@.take(i + 1).drop_last() =~= s@.take(i as int));
        if s[i] != '_' {
            out.push(s[i]);
        }
        i += 1;
    }
    assert(s@.take(i as int) =~= s@);
    out
}

/// Reads an unsigned integer of at most `limit`, after an optional '+'.
fn from_str_radix_unsigned(s: &[char], radix: u32) -> (r: Option<u64>)
    requires
        2 <= radix <= 16,
    ensures
        r == from_str_radix_u64(s@, radix as nat),
{
    let d: &[char] = if s.len() > 0 && s[0] == '+' { &s[1..s.len()] } else { s };
    proof {
        if s@.len() > 0 && s@[0] == '+' {
            assert(d@ =~= s@.drop_first());
        }
    }
    if d.len() == 0 {
        return None;
    }
    digits_up_to(d, radix, 0xFFFF_FFFF_FFFF_FFFFu64)
}

/// Reads a signed integer, after an optional sign.
fn from_str_radix_signed(s: &[char], radix: u32) -> (r: Option<i64>)
    requires
        2 <= radix <= 16,
    ensures
        r == from_str_radix_i64(s@, radix as nat),
{
    let negative = s.len() > 0 && s[0] == '-';
    let d: &[char] = if s.len() > 0 && (s[0] == '+' || s[0] == '-') { &s[1..s.len()] } else { s };
    proof {
        if s@.len() > 0 && (s@[0] == '+' || s@[0] == '-') {
            assert(d@ =~= s@.drop_first());
        }
    }
    if d.len() == 0 {
        return None;
    }
    if negative {
        match digits_up_to(d, radix, 0x8000_0000_0000_0000u64) {
            Some(v) => {
                if v == 0x8000_0000_0000_0000u64 {
                    Some(i64::MIN)
                } else {
                    Some(-(v as i64))
                }
            },
            None => None,
        }
    } else {
        match digits_up_to(d, radix, 0x7FFF_FFFF_FFFF_FFFFu64) {
            Some(v) => Some(v as i64),
            None => None,
        }
    }
}

/// Reads an unsigned integer: underscores are ignored, "0x" introduces hexadecimal and "0b"
/// binary digits, anything else is decimal.
fn parse_unsigned(s: &[char]) -> (r: Option<u64>)
    ensures
        r == parse_unsigned_spec(s@),
{
    let no_underscores = remove_underscores(s);
    let t = no_underscores.as_slice();
    if t.len() >= 2 && t[0] == '0' && t[1] == 'x' {
        let hex_str = &t[2..t.len()];
        assert(hex_str@ =~= t@.skip(2));
        from_str_radix_unsigned(hex_str, 16)
    } else if t.len() >= 2 && t[0] == '0' && t[1] == 'b' {
        let bin_str = &t[2..t.len()];
        assert(bin_str@ =~= t@.skip(2));
        from_str_radix_unsigned(bin_str, 2)
    } else {
        // no octal, octal is pointless on machines with multiples of 8 bits
        from_str_radix_unsigned(t, 10)
    }
}

/// Reads a signed integer, written as `parse_unsigned` reads unsigned ones.
fn parse_signed(s: &[char]) -> (r: Option<i64>)
    ensures
        r == parse_signed_spec(s@),
{
    let no_underscores = remove_underscores(s);
    let t = no_underscores.as_slice();
    if t.len() >= 2 && t[0] == '0' && t[1] == 'x' {
        let hex_str = &t[2..t.len()];
        assert(hex_str@ =~= t@.skip(2));
        from_str_radix_signed(hex_str, 16)
    } else if t.len() >= 2 && t[0] == '0' && t[1] == 'b' {
        let bin_str = &t[2..t.len()];
        assert(bin_str@ =~= t@.skip(2));
        from_str_radix_signed(bin_str, 2)
    } else {
        from_str_radix_signed(t, 10)
    }
}

// ---------------------------------------------------------------------------------------------
// Reading the arguments of a line
// ---------------------------------------------------------------------------------------------

/// Calls `String::from_iter` on the characters: the string of exactly these characters.
#[verifier::external_body]
pub(crate) fn string_from_chars(chars: &[char]) -> (r: String)
    ensures
        r@ == chars@,
{
    String::from_iter(chars.iter())
}

/// An unsigned integer of at most `max`, or the error for line `ln`.
pub open spec fn parse_bounded_spec(s: Seq<char>, ln: usize, max: u64) -> Result<u64, ErrorModel> {
    match parse_unsigned_spec(s) {
        None => Err(ErrorModel::InvalidInteger { line_number: ln, integer_string: s }),
        Some(n) => if n > max {
            Err(ErrorModel::IntegerTooLarge { line_number: ln, value: n, max_value: max })
        } else {
            Ok(n)
        },
    }
}

/// A signed 16-bit integer, or the error for line `ln`.
pub open spec fn parse_i16_spec(s: Seq<char>, ln: usize) -> Result<i16, ErrorModel> {
    match parse_signed_spec(s) {
        None => Err(ErrorModel::InvalidInteger { line_number: ln, integer_string: s }),
        Some(n) => if n > i16::MAX {
            Err(ErrorModel::IntegerTooLarge { line_number: ln, value: n as u64, max_value: i16::MAX as u64 })
        } else if n < i16::MIN {
            Err(ErrorModel::IntegerTooSmall { line_number: ln, value: n, min_value: i16::MIN as i64 })
        } else {
            Ok(n as i16)
        },
    }
}

/// The error that a wrong number of arguments gives, if the count is wrong.
pub open spec fn args_ok(ln: usize, mnemonic: Seq<char>, expected: usize, chunks_len: nat) -> Result<(), ErrorModel> {
    if chunks_len - 1 == expected {
        Ok(())
    } else {
        Err(ErrorModel::WrongArgumentCount { line_number: ln, mnemonic, expected, obtained: (chunks_len - 1) as usize })
    }
}

/// The bytes that the chunks stand for, or the error of the first that stands for none.
pub open spec fn parse_bytes_spec(chunks: Seq<Seq<char>>, ln: usize) -> Result<Seq<u8>, ErrorModel>
    decreases chunks.len(),
{
    if chunks.len() == 0 {
        Ok(seq![])
    } else {
        match parse_bounded_spec(chunks[0], ln, 0xFF) {
            Err(e) => Err(e),
            Ok(b) => match parse_bytes_spec(chunks.drop_first(), ln) {
                Err(e) => Err(e),
                Ok(rest) => Ok(seq![b as u8] + rest),
            },
        }
    }
}

fn parse_bounded(s: &[char], line_number: usize, max: u64) -> (r: Result<u64, Error>)
    ensures
        match r {
            Ok(n) => parse_bounded_spec(s@, line_number, max) == Ok::<u64, ErrorModel>(n),
            Err(e) => parse_bounded_spec(s@, line_number, max) == Err::<u64, ErrorModel>(e@),
        },
{
    let num = match parse_unsigned(s) {
        Some(n) => n,
        None => return Err(Error::InvalidInteger { line_number, integer_string: string_from_chars(s) }),
    };
    if num > max {
        Err(Error::IntegerTooLarge { line_number, value: num, max_value: max })
    } else {
        Ok(num)
    }
}

fn parse_u3(s: &[char], line_number: usize) -> (r: Result<U3, Error>)
    ensures
        match r {
            Ok(v) => parse_bounded_spec(s@, line_number, 7) == Ok::<u64, ErrorModel>(v@ as u64),
            Err(e) => parse_bounded_spec(s@, line_number, 7) == Err::<u64, ErrorModel>(e@),
        },
{
    let max = U3::known_max_value().to_base_type() as u64;
    match parse_bounded(s, line_number, max) {
        Ok(n) => Ok(U3::from_base_type(n as u8)),
        Err(e) => Err(e),
    }
}

fn parse_u4(s: &[char], line_number: usize) -> (r: Result<U4, Error>)
    ensures
        match r {
            Ok(v) => parse_bounded_spec(s@, line_number, 15) == Ok::<u64, ErrorModel>(v@ as u64),
            Err(e) => parse_bounded_spec(s@, line_number, 15) == Err::<u64, ErrorModel>(e@),
        },
{
    let max = U4::known_max_value().to_base_type() as u64;
    match parse_bounded(s, line_number, max) {
        Ok(n) => Ok(U4::from_base_type(n as u8)),
        Err(e) => Err(e),
    }
}

fn parse_u7(s: &[char], line_number: usize) -> (r: Result<U7, Error>)
    ensures
        match r {
            Ok(v) => parse_bounded_spec(s@, line_number, 127) == Ok::<u64, ErrorModel>(v@ as u64),
            Err(e) => parse_bounded_spec(s@, line_number, 127) == Err::<u64, ErrorModel>(e@),
        },
{
    let max = U7::known_max_value().to_base_type() as u64;
    match parse_bounded(s, line_number, max) {
        Ok(n) => Ok(U7::from_base_type(n as u8)),
        Err(e) => Err(e),
    }
}

fn parse_u8(s: &[char], line_number: usize) -> (r: Result<u8, Error>)
    ensures
        match r {
            Ok(v) => parse_bounded_spec(s@, line_number, 0xFF) == Ok::<u64, ErrorModel>(v as u64),
            Err(e) => parse_bounded_spec(s@, line_number, 0xFF) == Err::<u64, ErrorModel>(e@),
        },
{
    let max = u8::known_max_value() as u64;
    match parse_bounded(s, line_number, max) {
        Ok(n) => Ok(n as u8),
        Err(e) => Err(e),
    }
}

fn parse_u14(s: &[char], line_number: usize) -> (r: Result<U14, Error>)
    ensures
        match r {
            Ok(v) => parse_bounded_spec(s@, line_number, 16383) == Ok::<u64, ErrorModel>(v@ as u64),
            Err(e) => parse_bounded_spec(s@, line_number, 16383) == Err::<u64, ErrorModel>(e@),
        },
{
    let max = U14::known_max_value().to_base_type() as u64;
    match parse_bounded(s, line_number, max) {
        Ok(n) => Ok(U14::from_base_type(n as u16)),
        Err(e) => Err(e),
    }
}

fn parse_u16(s: &[char], line_number: usize) -> (r: Result<u16, Error>)
    ensures
        match r {
            Ok(v) => parse_bounded_spec(s@, line_number, 0xFFFF) == Ok::<u64, ErrorModel>(v as u64),
            Err(e) => parse_bounded_spec(s@, line_number, 0xFFFF) == Err::<u64, ErrorModel>(e@),
        },
{
    let max = u16::known_max_value() as u64;
    match parse_bounded(s, line_number, max) {
        Ok(n) => Ok(n as u16),
        Err(e) => Err(e),
    }
}

fn parse_u32(s: &[char], line_number: usize) -> (r: Result<u32, Error>)
    ensures
        match r {
            Ok(v) => parse_bounded_spec(s@, line_number, 0xFFFF_FFFF) == Ok::<u64, ErrorModel>(v as u64),
            Err(e) => parse_bounded_spec(s@, line_number, 0xFFFF_FFFF) == Err::<u64, ErrorModel>(e@),
        },
{
    let max = u32::known_max_value() as u64;
    match parse_bounded(s, line_number, max) {
        Ok(n) => Ok(n as u32),
        Err(e) => Err(e),
    }
}

fn parse_i16(s: &[char], line_number: usize) -> (r: Result<i16, Error>)
    ensures
        match r {
            Ok(v) => parse_i16_spec(s@, line_number) == Ok::<i16, ErrorModel>(v),
            Err(e) => parse_i16_spec(s@, line_number) == Err::<i16, ErrorModel>(e@),
        },
{
    let num = match parse_signed(s) {
        Some(n) => n,
        None => return Err(Error::InvalidInteger { line_number, integer_string: string_from_chars(s) }),
    };
    if num > i16::MAX as i64 {
        Err(Error::IntegerTooLarge { line_number, value: num as u64, max_value: i16::MAX as u64 })
    } else if num < i16::MIN as i64 {
        Err(Error::IntegerTooSmall { line_number, value: num, min_value: i16::MIN as i64 })
    } else {
        Ok(num as i16)
    }
}

/// Reads each chunk as a byte.
fn parse_bytes(chunks: &[Vec<char>], line_number: usize) -> (r: Result<Vec<u8>, Error>)
    ensures
        match r {
            Ok(data) => parse_bytes_spec(char_vec_views(chunks@), line_number) == Ok::<Seq<u8>, ErrorModel>(data@),
            Err(e) => parse_bytes_spec(char_vec_views(chunks@), line_number) == Err::<Seq<u8>, ErrorModel>(e@),
        },
{
    let mut data: Vec<u8> = Vec::new();
    let mut i: usize = 0;
    let ghost views = char_vec_views(chunks@);
    assert(views.skip(0) =~= views);
    while i < chunks.len()
        invariant
            i <= chunks@.len(),
            views == char_vec_views(chunks@),
            parse_bytes_spec(views, line_number) == match parse_bytes_spec(views.skip(i as int), line_number) {
                Ok(rest) => Ok(data@ + rest),
                Err(e) => Err::<Seq<u8>, ErrorModel>(e),
            },
        decreases chunks@.len() - i,
    {
        assert(views.skip(i as int)[0] == chunks@[i as int]@);
        assert(views.skip(i as int).drop_first() =~= views.skip(i + 1));
        let byte = match parse_u8(chunks[i].as_slice(), line_number) {
            Ok(b) => b,
            Err(e) => return Err(e),
        };
        proof {
            match parse_bytes_spec(views.skip(i + 1), line_number) {
                Ok(rest) => {
                    assert(data@ + (seq![byte] + rest) =~= data@.push(byte) + rest);
                },
                Err(_) => {},
            }
        }
        data.push(byte);
        i += 1;
    }
    proof {
        assert(views.skip(i as int) =~= Seq::<Seq<char>>::empty());
        assert(data@ + Seq::<u8>::empty() =~= data@);
    }
    Ok(data)
}

// ---------------------------------------------------------------------------------------------
// Reading one line
// ---------------------------------------------------------------------------------------------

/// The channel message that the chunks after "ch" and the channel stand for.
pub open(crate) spec fn channel_message_spec(m: Seq<Seq<char>>, ln: usize) -> Result<Message, ErrorModel> {
    let sub = m[2];
    if sub == "nof"@ || sub == "non"@ || sub == "kpr"@ || sub == "cch"@ {
        let mnemonic = if sub == "nof"@ { "ch.nof"@ } else if sub == "non"@ { "ch.non"@ } else if sub == "kpr"@ { "ch.kpr"@ } else { "ch.cch"@ };
        match args_ok(ln, mnemonic, 4, m.len()) {
            Err(e) => Err(e),
            Ok(()) => match parse_bounded_spec(m[3], ln, 127) {
                Err(e) => Err(e),
                Ok(a) => match parse_bounded_spec(m[4], ln, 127) {
                    Err(e) => Err(e),
                    Ok(b) => Ok(
                        if sub == "nof"@ {
                            Message::NoteOff(NoteMessage { note: U7(a as u8), value: U7(b as u8) })
                        } else if sub == "non"@ {
                            Message::NoteOn(NoteMessage { note: U7(a as u8), value: U7(b as u8) })
                        } else if sub == "kpr"@ {
                            Message::KeyPressure(NoteMessage { note: U7(a as u8), value: U7(b as u8) })
                        } else {
                            Message::ControlChange(ControlChangeMessage { control: Control::spec_from_code(a as u8), value: U7(b as u8) })
                        },
                    ),
                },
            },
        }
    } else if sub == "pch"@ {
        match args_ok(ln, "ch.pch"@, 3, m.len()) {
            Err(e) => Err(e),
            Ok(()) => match parse_bounded_spec(m[3], ln, 127) {
                Err(e) => Err(e),
                Ok(a) => Ok(Message::ProgramChange(ProgramChangeMessage { program: U7(a as u8) })),
            },
        }
    } else if sub == "cpr"@ {
        match args_ok(ln, "ch.cpr"@, 4, m.len()) {
            Err(e) => Err(e),
            Ok(()) => match parse_bounded_spec(m[3], ln, 127) {
                Err(e) => Err(e),
                Ok(a) => Ok(Message::ChannelPressure(ChannelValueMessage { value: U7(a as u8) })),
            },
        }
    } else if sub == "pbd"@ {
        match args_ok(ln, "ch.pbd"@, 3, m.len()) {
            Err(e) => Err(e),
            Ok(()) => match parse_bounded_spec(m[3], ln, 16383) {
                Err(e) => Err(e),
                Ok(a) => Ok(Message::PitchBend(PitchBendMessage { value: U14(a as u16) })),
            },
        }
    } else {
        Err(ErrorModel::UnknownMnemonic { line_number: ln, mnemonic: sub })
    }
}

/// The event data that the chunks of a line stand for, the mnemonic first.
pub open(crate) spec fn event_data_spec(m: Seq<Seq<char>>, ln: usize) -> Result<EventDataModel, ErrorModel> {
    let name = m[0];
    if name == "ch"@ {
        if m.len() < 3 {
            Err(ErrorModel::WrongArgumentCount { line_number: ln, mnemonic: "ch"@, expected: 2, obtained: (m.len() - 1) as usize })
        } else {
            match parse_bounded_spec(m[1], ln, 15) {
                Err(e) => Err(e),
                Ok(channel) => match channel_message_spec(m, ln) {
                    Err(e) => Err(e),
                    Ok(message) => Ok(EventDataModel::Midi(MidiEventData { channel: U4(channel as u8), message })),
                },
            }
        }
    } else if name == "tcd"@ {
        match args_ok(ln, "tcd"@, 2, m.len()) {
            Err(e) => Err(e),
            Ok(()) => match parse_bounded_spec(m[1], ln, 7) {
                Err(e) => Err(e),
                Ok(a) => match parse_bounded_spec(m[2], ln, 15) {
                    Err(e) => Err(e),
                    Ok(b) => Ok(EventDataModel::System(SystemEventData::TimeCode(TimeCodeData { message_type: U3(a as u8), data: U4(b as u8) }))),
                },
            },
        }
    } else if name == "sps"@ {
        match args_ok(ln, "sps"@, 1, m.len()) {
            Err(e) => Err(e),
            Ok(()) => match parse_bounded_spec(m[1], ln, 16383) {
                Err(e) => Err(e),
                Ok(a) => Ok(EventDataModel::System(SystemEventData::SongPosition(SongPositionData { position: U14(a as u16) }))),
            },
        }
    } else if name == "ssl"@ {
        match args_ok(ln, "ssl"@, 2, m.len()) {
            Err(e) => Err(e),
            Ok(()) => match parse_bounded_spec(m[1], ln, 127) {
                Err(e) => Err(e),
                Ok(a) => Ok(EventDataModel::System(SystemEventData::SongSelect(SongSelectData { song: U7(a as u8) }))),
            },
        }
    } else if name == "trq"@ {
        match args_ok(ln, "trq"@, 0, m.len()) {
            Err(e) => Err(e),
            Ok(()) => Ok(EventDataModel::System(SystemEventData::TuneRequest)),
        }
    } else if name == "tcl"@ {
        match args_ok(ln, "tcl"@, 0, m.len()) {
            Err(e) => Err(e),
            Ok(()) => Ok(EventDataModel::System(SystemEventData::TimingClock)),
        }
    } else if name == "uf9"@ {
        match args_ok(ln, "uf9"@, 0, m.len()) {
            Err(e) => Err(e),
            Ok(()) => Ok(EventDataModel::System(SystemEventData::F9)),
        }
    } else if name == "srt"@ {
        match args_ok(ln, "srt"@, 0, m.len()) {
            Err(e) => Err(e),
            Ok(()) => Ok(EventDataModel::System(SystemEventData::Start)),
        }
    } else if name == "cnt"@ {
        match args_ok(ln, "cnt"@, 0, m.len()) {
            Err(e) => Err(e),
            Ok(()) => Ok(EventDataModel::System(SystemEventData::Continue)),
        }
    } else if name == "stp"@ {
        match args_ok(ln, "stp"@, 0, m.len()) {
            Err(e) => Err(e),
            Ok(()) => Ok(EventDataModel::System(SystemEventData::Stop)),
        }
    } else if name == "ufd"@ {
        match args_ok(ln, "ufd"@, 0, m.len()) {
            Err(e) => Err(e),
            Ok(()) => Ok(EventDataModel::System(SystemEventData::FD)),
        }
    } else if name == "asg"@ {
        match args_ok(ln, "asg"@, 0, m.len()) {
            Err(e) => Err(e),
            Ok(()) => Ok(EventDataModel::System(SystemEventData::ActiveSensing)),
        }
    } else if name == "rst"@ {
        match args_ok(ln, "rst"@, 0, m.len()) {
            Err(e) => Err(e),
            Ok(()) => Ok(EventDataModel::System(SystemEventData::SystemReset)),
        }
    } else if name == "syx"@ || name == "rsx"@ {
        match parse_bytes_spec(m.drop_first(), ln) {
            Err(e) => Err(e),
            Ok(data) => Ok(if name == "syx"@ { EventDataModel::SysEx(data) } else { EventDataModel::RawSysEx(data) }),
        }
    } else if name == "mta"@ {
        if m.len() < 2 {
            Err(ErrorModel::WrongArgumentCount { line_number: ln, mnemonic: "mta"@, expected: 2, obtained: (m.len() - 1) as usize })
        } else {
            match parse_bounded_spec(m[1], ln, 127) {
                Err(e) => Err(e),
                Ok(t) => match parse_bytes_spec(m.skip(2), ln) {
                    Err(e) => Err(e),
                    Ok(data) => Ok(EventDataModel::Meta(MetaType::spec_from_code(t as u8), data)),
                },
            }
        }
    } else {
        Err(ErrorModel::UnknownMnemonic { line_number: ln, mnemonic: name })
    }
}

/// Reads the channel message from the chunks after "ch" and the channel.
fn read_channel_message(m: &[Vec<char>], ln: usize) -> (r: Result<Message, Error>)
    requires
        m@.len() >= 3,
    ensures
        match r {
            Ok(msg) => channel_message_spec(char_vec_views(m@), ln) == Ok::<Message, ErrorModel>(msg),
            Err(e) => channel_message_spec(char_vec_views(m@), ln) == Err::<Message, ErrorModel>(e@),
        },
{
    let ghost v = char_vec_views(m@);
    assert(v[2] == m@[2]@);
    let sub = m[2].as_slice();
    let is_nof = chunk_is(sub, "nof");
    let is_non = chunk_is(sub, "non");
    let is_kpr = chunk_is(sub, "kpr");
    let is_cch = chunk_is(sub, "cch");
    if is_nof || is_non || is_kpr || is_cch {
        let mnemonic: &'static str = if is_nof { "ch.nof" } else if is_non { "ch.non" } else if is_kpr { "ch.kpr" } else { "ch.cch" };
        match Error::ensure_args(ln, mnemonic, 4, m.len()) {
            Ok(()) => {},
            Err(e) => return Err(e),
        }
        assert(v[3] == m@[3]@ && v[4] == m@[4]@);
        let a = match parse_u7(m[3].as_slice(), ln) {
            Ok(a) => a,
            Err(e) => return Err(e),
        };
        let b = match parse_u7(m[4].as_slice(), ln) {
            Ok(b) => b,
            Err(e) => return Err(e),
        };
        if is_nof {
            Ok(Message::NoteOff(NoteMessage { note: a, value: b }))
        } else if is_non {
            Ok(Message::NoteOn(NoteMessage { note: a, value: b }))
        } else if is_kpr {
            Ok(Message::KeyPressure(NoteMessage { note: a, value: b }))
        } else {
            Ok(Message::ControlChange(ControlChangeMessage { control: Control::from_base_type(a), value: b }))
        }
    } else if chunk_is(sub, "pch") {
        match Error::ensure_args(ln, "ch.pch", 3, m.len()) {
            Ok(()) => {},
            Err(e) => return Err(e),
        }
        assert(v[3] == m@[3]@);
        match parse_u7(m[3].as_slice(), ln) {
            Ok(a) => Ok(Message::ProgramChange(ProgramChangeMessage { program: a })),
            Err(e) => Err(e),
        }
    } else if chunk_is(sub, "cpr") {
        match Error::ensure_args(ln, "ch.cpr", 4, m.len()) {
            Ok(()) => {},
            Err(e) => return Err(e),
        }
        assert(v[3] == m@[3]@);
        match parse_u7(m[3].as_slice(), ln) {
            Ok(a) => Ok(Message::ChannelPressure(ChannelValueMessage { value: a })),
            Err(e) => Err(e),
        }
    } else if chunk_is(sub, "pbd") {
        match Error::ensure_args(ln, "ch.pbd", 3, m.len()) {
            Ok(()) => {},
            Err(e) => return Err(e),
        }
        assert(v[3] == m@[3]@);
        match parse_u14(m[3].as_slice(), ln) {
            Ok(a) => Ok(Message::PitchBend(PitchBendMessage { value: a })),
            Err(e) => Err(e),
        }
    } else {
        Err(Error::UnknownMnemonic { line_number: ln, mnemonic: string_from_chars(sub) })
    }
}

/// Reads the event data from the chunks of a line, the mnemonic first.
fn read_event_data(m: &[Vec<char>], ln: usize) -> (r: Result<EventData, Error>)
    requires
        m@.len() >= 1,
    ensures
        match r {
            Ok(data) => event_data_spec(char_vec_views(m@), ln) == Ok::<EventDataModel, ErrorModel>(data@),
            Err(e) => event_data_spec(char_vec_views(m@), ln) == Err::<EventDataModel, ErrorModel>(e@),
        },
{
    let ghost v = char_vec_views(m@);
    assert(v[0] == m@[0]@);
    let name = m[0].as_slice();
    if chunk_is(name, "ch") {
        // some channel event; we need at least three chunks
        if m.len() < 3 {
            return Err(Error::WrongArgumentCount { line_number: ln, mnemonic: "ch", expected: 2, obtained: m.len() - 1 });
        }
        assert(v[1] == m@[1]@);
        let channel = match parse_u4(m[1].as_slice(), ln) {
            Ok(c) => c,
            Err(e) => return Err(e),
        };
        match read_channel_message(m, ln) {
            Ok(message) => Ok(EventData::Midi(MidiEventData { channel, message })),
            Err(e) => Err(e),
        }
    } else if chunk_is(name, "tcd") {
        match Error::ensure_args(ln, "tcd", 2, m.len()) {
            Ok(()) => {},
            Err(e) => return Err(e),
        }
        assert(v[1] == m@[1]@ && v[2] == m@[2]@);
        let message_type = match parse_u3(m[1].as_slice(), ln) {
            Ok(a) => a,
            Err(e) => return Err(e),
        };
        let data = match parse_u4(m[2].as_slice(), ln) {
            Ok(b) => b,
            Err(e) => return Err(e),
        };
        Ok(EventData::System(SystemEventData::TimeCode(TimeCodeData { message_type, data })))
    } else if chunk_is(name, "sps") {
        match Error::ensure_args(ln, "sps", 1, m.len()) {
            Ok(()) => {},
            Err(e) => return Err(e),
        }
        assert(v[1] == m@[1]@);
        match parse_u14(m[1].as_slice(), ln) {
            Ok(position) => Ok(EventData::System(SystemEventData::SongPosition(SongPositionData { position }))),
            Err(e) => Err(e),
        }
    } else if chunk_is(name, "ssl") {
        match Error::ensure_args(ln, "ssl", 2, m.len()) {
            Ok(()) => {},
            Err(e) => return Err(e),
        }
        assert(v[1] == m@[1]@);
        match parse_u7(m[1].as_slice(), ln) {
            Ok(song) => Ok(EventData::System(SystemEventData::SongSelect(SongSelectData { song }))),
            Err(e) => Err(e),
        }
    } else if chunk_is(name, "trq") {
        match Error::ensure_args(ln, "trq", 0, m.len()) {
            Err(e) => Err(e),
            Ok(()) => Ok(EventData::System(SystemEventData::TuneRequest)),
        }
    } else if chunk_is(name, "tcl") {
        match Error::ensure_args(ln, "tcl", 0, m.len()) {
            Err(e) => Err(e),
            Ok(()) => Ok(EventData::System(SystemEventData::TimingClock)),
        }
    } else if chunk_is(name, "uf9") {
        match Error::ensure_args(ln, "uf9", 0, m.len()) {
            Err(e) => Err(e),
            Ok(()) => Ok(EventData::System(SystemEventData::F9)),
        }
    } else if chunk_is(name, "srt") {
        match Error::ensure_args(ln, "srt", 0, m.len()) {
            Err(e) => Err(e),
            Ok(()) => Ok(EventData::System(SystemEventData::Start)),
        }
    } else if chunk_is(name, "cnt") {
        match Error::ensure_args(ln, "cnt", 0, m.len()) {
            Err(e) => Err(e),
            Ok(()) => Ok(EventData::System(SystemEventData::Continue)),
        }
    } else if chunk_is(name, "stp") {
        match Error::ensure_args(ln, "stp", 0, m.len()) {
            Err(e) => Err(e),
            Ok(()) => Ok(EventData::System(SystemEventData::Stop)),
        }
    } else if chunk_is(name, "ufd") {
        match Error::ensure_args(ln, "ufd", 0, m.len()) {
            Err(e) => Err(e),
            Ok(()) => Ok(EventData::System(SystemEventData::FD)),
        }
    } else if chunk_is(name, "asg") {
        match Error::ensure_args(ln, "asg", 0, m.len()) {
            Err(e) => Err(e),
            Ok(()) => Ok(EventData::System(SystemEventData::ActiveSensing)),
        }
    } else if chunk_is(name, "rst") {
        match Error::ensure_args(ln, "rst", 0, m.len()) {
            Err(e) => Err(e),
            Ok(()) => Ok(EventData::System(SystemEventData::SystemReset)),
        }
    } else if chunk_is(name, "syx") || chunk_is(name, "rsx") {
        let is_syx = chunk_is(name, "syx");
        let rest = &m[1..m.len()];
        assert(char_vec_views(rest@) =~= v.drop_first());
        match parse_bytes(rest, ln) {
            Ok(data) => if is_syx {
                Ok(EventData::SysEx(SysExEventData { data }))
            } else {
                Ok(EventData::RawSysEx(SysExEventData { data }))
            },
            Err(e) => Err(e),
        }
    } else if chunk_is(name, "mta") {
        if m.len() < 2 {
            return Err(Error::WrongArgumentCount { line_number: ln, mnemonic: "mta", expected: 2, obtained: m.len() - 1 });
        }
        assert(v[1] == m@[1]@);
        let meta_type_number = match parse_u7(m[1].as_slice(), ln) {
            Ok(t) => t,
            Err(e) => return Err(e),
        };
        let meta_type = MetaType::from_base_type(meta_type_number);
        let rest = &m[2..m.len()];
        assert(char_vec_views(rest@) =~= v.skip(2));
        match parse_bytes(rest, ln) {
            Ok(data) => Ok(EventData::Meta(MetaEventData { meta_type, data })),
            Err(e) => Err(e),
        }
    } else {
        Err(Error::UnknownMnemonic { line_number: ln, mnemonic: string_from_chars(name) })
    }
}

// ---------------------------------------------------------------------------------------------
// Reading a whole text
// ---------------------------------------------------------------------------------------------

/// How reading (part of) a text ends: with a value, with an error, or where the reader gives up
/// with a panic (a line holding a delta time alone, or more tracks than a header can count).
pub enum AsmOutcome<T> {
    Done(T),
    Fails(ErrorModel),
    Panics,
}

/// The reader's state between lines.
pub struct AsmState {
    pub format: Option<SmfFormat>,
    pub division: Option<i16>,
    pub track_started: bool,
    pub current: Seq<EventModel>,
    pub tracks: Seq<Seq<EventModel>>,
}

/// The event that the chunks of a line stand for: an optional delta time, then the event data.
#[verifier::opaque]
pub open(crate) spec fn event_line_spec(chunks: Seq<Seq<char>>, ln: usize) -> AsmOutcome<EventModel> {
    if parse_unsigned_spec(chunks[0]) is Some {
        match parse_bounded_spec(chunks[0], ln, 0xFFFF_FFFF) {
            Err(e) => AsmOutcome::Fails(e),
            Ok(delta_time) => if chunks.len() < 2 {
                AsmOutcome::Panics
            } else {
                match event_data_spec(chunks.drop_first(), ln) {
                    Err(e) => AsmOutcome::Fails(e),
                    Ok(data) => AsmOutcome::Done(EventModel { delta_time: delta_time as u32, data }),
                }
            },
        }
    } else {
        match event_data_spec(chunks, ln) {
            Err(e) => AsmOutcome::Fails(e),
            Ok(data) => AsmOutcome::Done(EventModel { delta_time: 0, data }),
        }
    }
}

/// Reading line number `ln`, already without its comment and with its whitespace folded.
pub open(crate) spec fn step_folded(st: AsmState, folded: Seq<char>, ln: usize) -> AsmOutcome<AsmState> {
    if folded.len() == 0 {
        AsmOutcome::Done(st)
    } else {
        let c = split_spaces(folded);
        if st.format is None {
            if c[0] == "fmt"@ {
                match args_ok(ln, "fmt"@, 1, c.len()) {
                    Err(e) => AsmOutcome::Fails(e),
                    Ok(()) => match parse_bounded_spec(c[1], ln, 0xFFFF) {
                        Err(e) => AsmOutcome::Fails(e),
                        Ok(n) => AsmOutcome::Done(AsmState {
                            format: Some(SmfFormat::spec_from_code(n as u16)),
                            division: st.division,
                            track_started: st.track_started,
                            current: st.current,
                            tracks: st.tracks,
                        }),
                    },
                }
            } else {
                AsmOutcome::Fails(ErrorModel::ExpectedHeader { line_number: ln, expected_mnemonic: "fmt"@, obtained_mnemonic: c[0] })
            }
        } else if st.division is None {
            if c[0] == "div"@ {
                match args_ok(ln, "div "@, 1, c.len()) {
                    Err(e) => AsmOutcome::Fails(e),
                    Ok(()) => match parse_i16_spec(c[1], ln) {
                        Err(e) => AsmOutcome::Fails(e),
                        Ok(d) => AsmOutcome::Done(AsmState {
                            format: st.format,
                            division: Some(d),
                            track_started: st.track_started,
                            current: st.current,
                            tracks: st.tracks,
                        }),
                    },
                }
            } else {
                AsmOutcome::Fails(ErrorModel::ExpectedHeader { line_number: ln, expected_mnemonic: "div"@, obtained_mnemonic: c[0] })
            }
        } else if !st.track_started {
            if c[0] == "trk"@ {
                match args_ok(ln, "trk"@, 0, c.len()) {
                    Err(e) => AsmOutcome::Fails(e),
                    Ok(()) => AsmOutcome::Done(AsmState {
                        format: st.format,
                        division: st.division,
                        track_started: true,
                        current: st.current,
                        tracks: st.tracks,
                    }),
                }
            } else {
                AsmOutcome::Fails(ErrorModel::ExpectedHeader { line_number: ln, expected_mnemonic: "trk"@, obtained_mnemonic: c[0] })
            }
        } else if c[0] == "trk"@ {
            match args_ok(ln, "trk"@, 0, c.len()) {
                Err(e) => AsmOutcome::Fails(e),
                Ok(()) => AsmOutcome::Done(AsmState {
                    format: st.format,
                    division: st.division,
                    track_started: st.track_started,
                    current: seq![],
                    tracks: st.tracks.push(st.current),
                }),
            }
        } else {
            match event_line_spec(c, ln) {
                AsmOutcome::Fails(e) => AsmOutcome::Fails(e),
                AsmOutcome::Panics => AsmOutcome::Panics,
                AsmOutcome::Done(e) => AsmOutcome::Done(AsmState {
                    format: st.format,
                    division: st.division,
                    track_started: st.track_started,
                    current: st.current.push(e),
                    tracks: st.tracks,
                }),
            }
        }
    }
}

/// Reading the lines `lines`, the first of them line number `ln + 1`: the state and the number
/// of the last line after them.
pub open(crate) spec fn asm_run(lines: Seq<Seq<char>>, st: AsmState, ln: usize) -> AsmOutcome<(AsmState, usize)>
    decreases lines.len(),
{
    if lines.len() == 0 {
        AsmOutcome::Done((st, ln))
    } else {
        match step_folded(st, fold_ws(strip_comment(lines[0])), (ln + 1) as usize) {
            AsmOutcome::Fails(e) => AsmOutcome::Fails(e),
            AsmOutcome::Panics => AsmOutcome::Panics,
            AsmOutcome::Done(st2) => asm_run(lines.drop_first(), st2, (ln + 1) as usize),
        }
    }
}

/// The state before the first line.
pub open spec fn initial_state() -> AsmState {
    AsmState { format: None, division: None, track_started: false, current: seq![], tracks: seq![] }
}

/// Reading the textual form `t` of a Standard MIDI File.
pub open(crate) spec fn read_asm_spec(t: Seq<char>) -> AsmOutcome<SmfModel> {
    match asm_run(text_lines(t), initial_state(), 0) {
        AsmOutcome::Fails(e) => AsmOutcome::Fails(e),
        AsmOutcome::Panics => AsmOutcome::Panics,
        AsmOutcome::Done((st, ln)) => {
            let tracks = st.tracks.push(st.current);
            match st.format {
                None => AsmOutcome::Fails(ErrorModel::ExpectedHeader { line_number: ln, expected_mnemonic: "fmt"@, obtained_mnemonic: seq![] }),
                Some(format) => match st.division {
                    None => AsmOutcome::Fails(ErrorModel::ExpectedHeader { line_number: ln, expected_mnemonic: "div"@, obtained_mnemonic: seq![] }),
                    Some(division) => if tracks.len() > u16::MAX {
                        AsmOutcome::Panics
                    } else {
                        AsmOutcome::Done(SmfModel {
                            header: FileHeader { format, track_count: tracks.len() as u16, division },
                            tracks,
                        })
                    },
                },
            }
        },
    }
}

/// The reader's state.
struct AsmReader {
    format: Option<SmfFormat>,
    division: Option<i16>,
    track_started: bool,
    current_track: Vec<Event>,
    tracks: Vec<Track>,
}

impl View for AsmReader {
    type V = AsmState;

    closed spec fn view(&self) -> AsmState {
        AsmState {
            format: self.format,
            division: self.division,
            track_started: self.track_started,
            current: self.current_track@.map_values(|e: Event| e@),
            tracks: self.tracks@.map_values(|t: Track| t@),
        }
    }
}

/// Reads the event on a line of chunks; `None` where the line holds a delta time alone.
fn read_event_line(chunks: &Vec<Vec<char>>, ln: usize) -> (r: Option<Result<Event, Error>>)
    requires
        chunks@.len() >= 1,
    ensures
        match event_line_spec(char_vec_views(chunks@), ln) {
            AsmOutcome::Done(e) => r matches Some(Ok(x)) && x@ == e,
            AsmOutcome::Fails(e) => r matches Some(Err(x)) && x@ == e,
            AsmOutcome::Panics => r is None,
        },
{
    let ghost v = char_vec_views(chunks@);
    assert(v[0] == chunks@[0]@);
    reveal(event_line_spec);
    // the event may be prefixed with a delta time
    if parse_unsigned(chunks[0].as_slice()).is_some() {
        let delta_time = match parse_u32(chunks[0].as_slice(), ln) {
            Ok(dt) => dt,
            Err(e) => return Some(Err(e)),
        };
        if chunks.len() < 2 {
            return None;
        }
        let mnemo_chunks = &chunks[1..chunks.len()];
        assert(char_vec_views(mnemo_chunks@) =~= v.drop_first());
        match read_event_data(mnemo_chunks, ln) {
            Ok(data) => Some(Ok(Event { delta_time, data })),
            Err(e) => Some(Err(e)),
        }
    } else {
        let mnemo_chunks = chunks.as_slice();
        match read_event_data(mnemo_chunks, ln) {
            Ok(data) => Some(Ok(Event { delta_time: 0, data })),
            Err(e) => Some(Err(e)),
        }
    }
}

impl AsmReader {
    /// Reads line number `ln`, already without its comment and with its whitespace folded;
    /// `None` where the reader gives up.
    fn read_line(&mut self, folded: &Vec<char>, ln: usize) -> (r: Option<Result<(), Error>>)
        ensures
            match step_folded(old(self)@, folded@, ln) {
                AsmOutcome::Done(st) => r == Some(Ok::<(), Error>(())) && final(self)@ == st,
                AsmOutcome::Fails(e) => r matches Some(Err(x)) && x@ == e,
                AsmOutcome::Panics => r is None,
            },
    {
        if folded.len() == 0 {
            return Some(Ok(()));
        }
        let chunks = split_at_spaces(folded);
        let ghost c = char_vec_views(chunks@);
        proof {
            lemma_split_nonempty(folded@, seq![]);
        }
        assert(c[0] == chunks@[0]@);
        let first = chunks[0].as_slice();

        // make sure we have the header
        if self.format.is_none() {
            if chunk_is(first, "fmt") {
                match Error::ensure_args(ln, "fmt", 1, chunks.len()) {
                    Ok(()) => {},
                    Err(e) => return Some(Err(e)),
                }
                assert(c[1] == chunks@[1]@);
                let format_number = match parse_u16(chunks[1].as_slice(), ln) {
                    Ok(n) => n,
                    Err(e) => return Some(Err(e)),
                };
                self.format = Some(SmfFormat::from_base_type(format_number));
                return Some(Ok(()));
            } else {
                return Some(Err(Error::ExpectedHeader {
                    line_number: ln,
                    expected_mnemonic: "fmt",
                    obtained_mnemonic: string_from_chars(first),
                }));
            }
        }
        if self.division.is_none() {
            if chunk_is(first, "div") {
                match Error::ensure_args(ln, "div ", 1, chunks.len()) {
                    Ok(()) => {},
                    Err(e) => return Some(Err(e)),
                }
                assert(c[1] == chunks@[1]@);
                let division_number = match parse_i16(chunks[1].as_slice(), ln) {
                    Ok(n) => n,
                    Err(e) => return Some(Err(e)),
                };
                self.division = Some(division_number);
                return Some(Ok(()));
            } else {
                return Some(Err(Error::ExpectedHeader {
                    line_number: ln,
                    expected_mnemonic: "div",
                    obtained_mnemonic: string_from_chars(first),
                }));
            }
        }
        if !self.track_started {
            if chunk_is(first, "trk") {
                match Error::ensure_args(ln, "trk", 0, chunks.len()) {
                    Ok(()) => {},
                    Err(e) => return Some(Err(e)),
                }
                self.track_started = true;
                return Some(Ok(()));
            } else {
                return Some(Err(Error::ExpectedHeader {
                    line_number: ln,
                    expected_mnemonic: "trk",
                    obtained_mnemonic: string_from_chars(first),
                }));
            }
        }
        if chunk_is(first, "trk") {
            // new track
            match Error::ensure_args(ln, "trk", 0, chunks.len()) {
                Ok(()) => {},
                Err(e) => return Some(Err(e)),
            }
            let mut finished_track_events: Vec<Event> = Vec::new();
            std::mem::swap(&mut finished_track_events, &mut self.current_track);
            let ghost before = self.tracks@.map_values(|t: Track| t@);
            let finished = Track { events: finished_track_events };
            self.tracks.push(finished);
            proof {
                assert(self.tracks@.map_values(|t: Track| t@) =~= before.push(finished@));
                assert(self.current_track@.map_values(|e: Event| e@) =~= Seq::<EventModel>::empty());
            }
            return Some(Ok(()));
        }
        match read_event_line(&chunks, ln) {
            None => None,
            Some(Err(e)) => Some(Err(e)),
            Some(Ok(event)) => {
                let ghost before = self.current_track@.map_values(|e: Event| e@);
                self.current_track.push(event);
                proof {
                    assert(self.current_track@.map_values(|e: Event| e@) =~= before.push(event@));
                }
                Some(Ok(()))
            },
        }
    }
}

proof fn lemma_split_nonempty(s: Seq<char>, cur: Seq<char>)
    ensures
        split_from(s, cur).len() >= 1,
    decreases s.len(),
{
    if s.len() > 0 {
        if s[0] == ' ' {
            lemma_split_nonempty(s.drop_first(), seq![]);
        } else {
            lemma_split_nonempty(s.drop_first(), cur.push(s[0]));
        }
    }
}

/// The first line of `t` from index `pos` on runs up to `end`, newline included.
proof fn lemma_next_line(t: Seq<char>, pos: int, e: int, end: int)
    requires
        0 <= pos < e <= t.len() || (0 <= pos == e < t.len()),
        pos <= e <= t.len(),
        forall|k: int| pos <= k < e ==> #[trigger] t[k] != '\n',
        e < t.len() ==> t[e] == '\n',
        end == (if e < t.len() { e + 1 } else { e }),
        pos < t.len(),
    ensures
        text_lines(t.skip(pos)) == seq![t.subrange(pos, end)] + text_lines(t.skip(end)),
        pos < end <= t.len(),
{
    let r = t.skip(pos);
    assert forall|i: int| 0 <= i < e - pos implies #[trigger] r[i] != '\n' by {
        assert(r[i] == t[pos + i]);
    }
    lemma_find_char_index(r, '\n', e - pos);
    assert(line_len(r) == end - pos);
    assert(r.take(end - pos) =~= t.subrange(pos, end));
    assert(r.skip(end - pos) =~= t.skip(end));
}

/// The comment of the line `t[pos..end]` starts at `cut`.
proof fn lemma_comment_cut(t: Seq<char>, pos: int, cut: int, end: int)
    requires
        0 <= pos <= cut <= end <= t.len(),
        forall|k: int| pos <= k < cut ==> #[trigger] t[k] != '#',
        cut < end ==> t[cut] == '#',
    ensures
        strip_comment(t.subrange(pos, end)) == t.subrange(pos, cut),
{
    let line = t.subrange(pos, end);
    assert forall|i: int| 0 <= i < cut - pos implies #[trigger] line[i] != '#' by {
        assert(line[i] == t[pos + i]);
    }
    lemma_find_char_index(line, '#', cut - pos);
    assert(line.take(cut - pos) =~= t.subrange(pos, cut));
}

/// The end of the line that starts at `pos`, and the line without its comment and with its
/// whitespace folded.
fn next_folded_line(chars: &Vec<char>, pos: usize) -> (r: (usize, Vec<char>))
    requires
        pos < chars@.len(),
    ensures
        pos < r.0 <= chars@.len(),
        text_lines(chars@.skip(pos as int)) == seq![chars@.subrange(pos as int, r.0 as int)] + text_lines(chars@.skip(r.0 as int)),
        r.1@ == fold_ws(strip_comment(chars@.subrange(pos as int, r.0 as int))),
{
    let ghost t = chars@;
    // find the end of the line
    let mut e: usize = pos;
    while e < chars.len() && chars[e] != '\n'
        invariant
            t == chars@,
            pos <= e <= t.len(),
            forall|k: int| pos <= k < e ==> #[trigger] t[k] != '\n',
        decreases t.len() - e,
    {
        e += 1;
    }
    let end: usize = if e < chars.len() { e + 1 } else { e };
    proof {
        lemma_next_line(t, pos as int, e as int, end as int);
    }
    // strip off a comment
    let mut cut: usize = pos;
    while cut < end && chars[cut] != '#'
        invariant
            t == chars@,
            pos <= cut <= end <= t.len(),
            forall|k: int| pos <= k < cut ==> #[trigger] t[k] != '#',
        decreases end - cut,
    {
        cut += 1;
    }
    proof {
        lemma_comment_cut(t, pos as int, cut as int, end as int);
    }
    let mut line = vstd::slice::slice_to_vec(&chars[pos..cut]);
    // fold whitespace (strip leading + trailing, compress all others into a single U+0020)
    fold_whitespace(&mut line);
    (end, line)
}

/// Reads the textual form of a Standard MIDI File, or gives up (`None`) where the reader would
/// panic: on a line that holds a delta time and nothing else, or when the text holds more tracks
/// than a header can count.
pub fn try_read_asm(text: &str) -> (r: Option<Result<StandardMidiFile, Error>>)
    ensures
        match read_asm_spec(text@) {
            AsmOutcome::Done(m) => r matches Some(Ok(f)) && f@ == m,
            AsmOutcome::Fails(e) => r matches Some(Err(x)) && x@ == e,
            AsmOutcome::Panics => r is None,
        },
{
    let chars = text_chars(text);
    let ghost t = chars@;
    let mut reader = AsmReader {
        format: None,
        division: None,
        track_started: false,
        current_track: Vec::new(),
        tracks: Vec::new(),
    };
    proof {
        assert(reader@.current =~= Seq::<EventModel>::empty());
        assert(reader@.tracks =~= Seq::<Seq<EventModel>>::empty());
        assert(reader@ == initial_state());
        assert(t.skip(0) =~= t);
    }
    let mut pos: usize = 0;
    let mut line_number: usize = 0;
    while pos < chars.len()
        invariant
            t == chars@,
            t == text@,
            pos <= t.len(),
            line_number <= pos,
            asm_run(text_lines(t), initial_state(), 0) == asm_run(text_lines(t.skip(pos as int)), reader@, line_number),
        decreases t.len() - pos,
    {
        let (end, line) = next_folded_line(&chars, pos);
        let ghost lines = text_lines(t.skip(pos as int));
        proof {
            assert(lines[0] == t.subrange(pos as int, end as int));
            assert(lines.drop_first() =~= text_lines(t.skip(end as int)));
        }
        line_number += 1;
        let ghost st = reader@;
        match reader.read_line(&line, line_number) {
            None => return None,
            Some(Err(e)) => return Some(Err(e)),
            Some(Ok(())) => {},
        }
        pos = end;
    }
    proof {
        assert(t.skip(pos as int) =~= Seq::<char>::empty());
    }
    let ghost final_state = reader@;
    let ghost before = reader.tracks@.map_values(|t: Track| t@);
    let last_track = Track { events: reader.current_track };
    let mut tracks = reader.tracks;
    tracks.push(last_track);
    proof {
        assert(tracks@.map_values(|t: Track| t@) =~= before.push(final_state.current));
    }
    let concrete_format = match reader.format {
        Some(f) => f,
        None => return Some(Err(Error::ExpectedHeader {
            line_number,
            expected_mnemonic: "fmt",
            obtained_mnemonic: String::new(),
        })),
    };
    let concrete_division = match reader.division {
        Some(d) => d,
        None => return Some(Err(Error::ExpectedHeader {
            line_number,
            expected_mnemonic: "div",
            obtained_mnemonic: String::new(),
        })),
    };
    if tracks.len() > 0xFFFF {
        return None;
    }
    Some(Ok(StandardMidiFile {
        header: FileHeader {
            format: concrete_format,
            track_count: tracks.len() as u16,
            division: concrete_division,
        },
        tracks,
    }))
}

/// Reads the textual form of a Standard MIDI File: a "fmt" line, a "div" line, then tracks, each
/// introduced by a "trk" line and holding one event per line. Comments run from '#' to the end
/// of the line; blank lines are skipped.
pub fn read_asm(text: &str) -> (r: Result<StandardMidiFile, Error>)
    requires
        !(read_asm_spec(text@) is Panics),
    ensures
        match read_asm_spec(text@) {
            AsmOutcome::Done(m) => r matches Ok(f) && f@ == m,
            AsmOutcome::Fails(e) => r matches Err(x) && x@ == e,
            AsmOutcome::Panics => false,
        },
{
    match try_read_asm(text) {
        Some(r) => r,
        None => {
            // the reader never gives up on such a text
            Err(Error::TrackCountMismatch { header: 0, file: 0 })
        },
    }
}

// ---------------------------------------------------------------------------------------------
// Writing
// ---------------------------------------------------------------------------------------------

/// The character of a decimal digit.
pub open spec fn digit_char(d: nat) -> char {
    (48 + d) as char
}

/// The decimal digits of `n`.
pub open spec fn dec(n: nat) -> Seq<char>
    decreases n,
{
    if n < 10 {
        seq![digit_char(n)]
    } else {
        dec(n / 10).push(digit_char(n % 10))
    }
}

/// The decimal form of a signed value.
pub open spec fn dec_signed(v: int) -> Seq<char> {
    if v < 0 {
        seq!['-'] + dec((-v) as nat)
    } else {
        dec(v as nat)
    }
}

/// The character of an upper-case hexadecimal digit.
pub open spec fn hex_digit_char(d: nat) -> char {
    if d < 10 {
        digit_char(d)
    } else {
        (55 + d) as char
    }
}

/// A byte as "0x" and two upper-case hexadecimal digits.
pub open spec fn hex_byte(b: u8) -> Seq<char> {
    seq!['0', 'x', hex_digit_char(b as nat / 16), hex_digit_char(b as nat % 16)]
}

/// Each byte, preceded by a space.
pub open spec fn bytes_text(data: Seq<u8>) -> Seq<char>
    decreases data.len(),
{
    if data.len() == 0 {
        seq![]
    } else {
        bytes_text(data.drop_last()) + seq![' '] + hex_byte(data.last())
    }
}

/// The line of a channel message, after "ch" and the channel.
pub open(crate) spec fn message_text(m: Message) -> Seq<char> {
    match m {
        Message::NoteOff(n) => "nof "@ + dec(n.note@ as nat) + seq![' '] + dec(n.value@ as nat) + seq!['\n'],
        Message::NoteOn(n) => "non "@ + dec(n.note@ as nat) + seq![' '] + dec(n.value@ as nat) + seq!['\n'],
        Message::KeyPressure(n) => "kpr "@ + dec(n.note@ as nat) + seq![' '] + dec(n.value@ as nat) + seq!['\n'],
        Message::ControlChange(c) => "cch "@ + dec(c.control.spec_code() as nat) + seq![' '] + dec(c.value@ as nat) + seq!['\n'],
        Message::ProgramChange(p) => "pch "@ + dec(p.program@ as nat) + seq!['\n'],
        Message::ChannelPressure(c) => "cpr "@ + dec(c.value@ as nat) + seq!['\n'],
        Message::PitchBend(p) => "pbd "@ + dec(p.value@ as nat) + seq!['\n'],
    }
}

/// The line of a system message.
pub open(crate) spec fn system_text(s: SystemEventData) -> Seq<char> {
    match s {
        SystemEventData::TimeCode(t) => "tcd "@ + dec(t.message_type@ as nat) + seq![' '] + dec(t.data@ as nat) + seq!['\n'],
        SystemEventData::SongPosition(p) => "sps "@ + dec(p.position@ as nat) + seq!['\n'],
        SystemEventData::SongSelect(x) => "ssl "@ + dec(x.song@ as nat) + seq!['\n'],
        SystemEventData::TuneRequest => "trq"@ + seq!['\n'],
        SystemEventData::TimingClock => "tcl"@ + seq!['\n'],
        SystemEventData::F9 => "uf9"@ + seq!['\n'],
        SystemEventData::Start => "srt"@ + seq!['\n'],
        SystemEventData::Continue => "cnt"@ + seq!['\n'],
        SystemEventData::Stop => "stp"@ + seq!['\n'],
        SystemEventData::FD => "ufd"@ + seq!['\n'],
        SystemEventData::ActiveSensing => "asg"@ + seq!['\n'],
        SystemEventData::SystemReset => "rst"@ + seq!['\n'],
    }
}

/// The text of an event's data.
pub open(crate) spec fn data_text(d: EventDataModel) -> Seq<char> {
    match d {
        EventDataModel::Midi(m) => "ch "@ + dec(m.channel@ as nat) + seq![' '] + message_text(m.message),
        EventDataModel::System(s) => system_text(s),
        EventDataModel::SysEx(data) => "syx"@ + bytes_text(data) + seq!['\n'],
        EventDataModel::RawSysEx(data) => "rsx"@ + seq!['\n'] + bytes_text(data) + seq!['\n'],
        EventDataModel::Meta(t, data) => "mta "@ + dec(t.spec_code() as nat) + bytes_text(data) + seq!['\n'],
    }
}

/// The text of an event: its delta time when not zero, then its data.
pub open(crate) spec fn event_text(e: EventModel) -> Seq<char> {
    (if e.delta_time > 0 { dec(e.delta_time as nat) + seq![' '] } else { seq![] }) + data_text(e.data)
}

/// The text of a sequence of events.
pub open(crate) spec fn events_text(events: Seq<EventModel>) -> Seq<char>
    decreases events.len(),
{
    if events.len() == 0 {
        seq![]
    } else {
        events_text(events.drop_last()) + event_text(events.last())
    }
}

/// The text of a sequence of tracks, each introduced by "trk".
pub open(crate) spec fn tracks_text(tracks: Seq<Seq<EventModel>>) -> Seq<char>
    decreases tracks.len(),
{
    if tracks.len() == 0 {
        seq![]
    } else {
        tracks_text(tracks.drop_last()) + "trk"@ + seq!['\n'] + events_text(tracks.last())
    }
}

/// The textual form of a whole file.
pub open(crate) spec fn asm_text(m: SmfModel) -> Seq<char> {
    "fmt "@ + dec(m.header.format.spec_code() as nat) + seq!['\n'] + "div "@ + dec_signed(m.header.division as int)
        + seq!['\n'] + tracks_text(m.tracks)
}

/// Appends the characters of `s`.
pub(crate) fn push_str(out: &mut Vec<char>, s: &str)
    ensures
        final(out)@ == old(out)@ + s@,
{
    let ghost start = out@;
    for c in iter: s.chars()
        invariant
            iter.seq() == s@,
            out@ == start + iter.seq().take(iter.index() as int),
    {
        proof {
            assert(iter.seq().take(iter.index() + 1) =~= iter.seq().take(iter.index() as int).push(c));
        }
        out.push(c);
    }
    proof {
        assert(s@.take(s@.len() as int) =~= s@);
    }
}

/// Appends the decimal digits of `n`.
pub(crate) fn push_decimal(out: &mut Vec<char>, n: u64)
    ensures
        final(out)@ == old(out)@ + dec(n as nat),
    decreases n,
{
    if n >= 10 {
        push_decimal(out, n / 10);
    }
    let d: u8 = (n % 10) as u8;
    out.push((48u8 + d) as char);
    proof {
        assert(final(out)@ =~= old(out)@ + dec(n as nat));
    }
}

/// Appends the decimal form of a signed value.
fn push_signed_decimal(out: &mut Vec<char>, v: i16)
    ensures
        final(out)@ == old(out)@ + dec_signed(v as int),
{
    if v < 0 {
        out.push('-');
        push_decimal(out, (-(v as i32)) as u64);
        proof {
            assert(final(out)@ =~= old(out)@ + dec_signed(v as int));
        }
    } else {
        push_decimal(out, v as u64);
    }
}

pub(crate) fn hex_digit(d: u8) -> (c: char)
    requires
        d < 16,
    ensures
        c == hex_digit_char(d as nat),
{
    if d < 10 {
        (48u8 + d) as char
    } else {
        (55u8 + d) as char
    }
}

/// Appends each byte, preceded by a space.
fn push_bytes(out: &mut Vec<char>, data: &Vec<u8>)
    ensures
        final(out)@ == old(out)@ + bytes_text(data@),
{
    let ghost start = out@;
    let mut i: usize = 0;
    assert(data@.take(0) =~= Seq::<u8>::empty());
    while i < data.len()
        invariant
            i <= data@.len(),
            out@ == start + bytes_text(data@.take(i as int)),
        decreases data@.len() - i,
    {
        let b = data[i];
        out.push(' ');
        out.push('0');
        out.push('x');
        out.push(hex_digit(b / 16));
        out.push(hex_digit(b % 16));
        proof {
            assert(data@.take(i + 1).drop_last() =~= data@.take(i as int));
            assert(out@ =~= start + bytes_text(data@.take(i + 1)));
        }
        i += 1;
    }
    assert(data@.take(i as int) =~= data@);
}

fn write_asm_message(message: &Message, out: &mut Vec<char>)
    ensures
        final(out)@ == old(out)@ + message_text(*message),
{
    let ghost start = out@;
    match message {
        Message::NoteOff(msg) => {
            push_str(out, "nof ");
            push_decimal(out, msg.note.to_base_type() as u64);
            out.push(' ');
            push_decimal(out, msg.value.to_base_type() as u64);
        },
        Message::NoteOn(msg) => {
            push_str(out, "non ");
            push_decimal(out, msg.note.to_base_type() as u64);
            out.push(' ');
            push_decimal(out, msg.value.to_base_type() as u64);
        },
        Message::KeyPressure(msg) => {
            push_str(out, "kpr ");
            push_decimal(out, msg.note.to_base_type() as u64);
            out.push(' ');
            push_decimal(out, msg.value.to_base_type() as u64);
        },
        Message::ControlChange(msg) => {
            push_str(out, "cch ");
            push_decimal(out, msg.control.to_base_type().to_base_type() as u64);
            out.push(' ');
            push_decimal(out, msg.value.to_base_type() as u64);
        },
        Message::ProgramChange(msg) => {
            push_str(out, "pch ");
            push_decimal(out, msg.program.to_base_type() as u64);
        },
        Message::ChannelPressure(msg) => {
            push_str(out, "cpr ");
            push_decimal(out, msg.value.to_base_type() as u64);
        },
        Message::PitchBend(msg) => {
            push_str(out, "pbd ");
            push_decimal(out, msg.value.to_base_type() as u64);
        },
    }
    out.push('\n');
    proof {
        assert(final(out)@ =~= start + message_text(*message));
    }
}

fn write_asm_system(data: &SystemEventData, out: &mut Vec<char>)
    ensures
        final(out)@ == old(out)@ + system_text(*data),
{
    let ghost start = out@;
    match data {
        SystemEventData::TimeCode(d) => {
            push_str(out, "tcd ");
            push_decimal(out, d.message_type.to_base_type() as u64);
            out.push(' ');
            push_decimal(out, d.data.to_base_type() as u64);
            out.push('\n');
        },
        SystemEventData::SongPosition(d) => {
            push_str(out, "sps ");
            push_decimal(out, d.position.to_base_type() as u64);
            out.push('\n');
        },
        SystemEventData::SongSelect(d) => {
            push_str(out, "ssl ");
            push_decimal(out, d.song.to_base_type() as u64);
            out.push('\n');
        },
        SystemEventData::TuneRequest => {
            push_str(out, "trq");
            out.push('\n');
        },
        SystemEventData::TimingClock => {
            push_str(out, "tcl");
            out.push('\n');
        },
        SystemEventData::F9 => {
            push_str(out, "uf9");
            out.push('\n');
        },
        SystemEventData::Start => {
            push_str(out, "srt");
            out.push('\n');
        },
        SystemEventData::Continue => {
            push_str(out, "cnt");
            out.push('\n');
        },
        SystemEventData::Stop => {
            push_str(out, "stp");
            out.push('\n');
        },
        SystemEventData::FD => {
            push_str(out, "ufd");
            out.push('\n');
        },
        SystemEventData::ActiveSensing => {
            push_str(out, "asg");
            out.push('\n');
        },
        SystemEventData::SystemReset => {
            push_str(out, "rst");
            out.push('\n');
        },
    }
    proof {
        assert(final(out)@ =~= start + system_text(*data));
    }
}

fn write_asm_event(event: &Event, out: &mut Vec<char>)
    ensures
        final(out)@ == old(out)@ + event_text(event@),
{
    let ghost start = out@;
    if event.delta_time > 0 {
        push_decimal(out, event.delta_time as u64);
        out.push(' ');
    }
    let ghost after_delta = out@;
    match &event.data {
        EventData::Midi(data) => {
            push_str(out, "ch ");
            push_decimal(out, data.channel.to_base_type() as u64);
            out.push(' ');
            write_asm_message(&data.message, out);
        },
        EventData::System(system_data) => {
            write_asm_system(system_data, out);
        },
        EventData::SysEx(data) => {
            push_str(out, "syx");
            push_bytes(out, &data.data);
            out.push('\n');
        },
        EventData::RawSysEx(data) => {
            push_str(out, "rsx");
            out.push('\n');
            push_bytes(out, &data.data);
            out.push('\n');
        },
        EventData::Meta(data) => {
            push_str(out, "mta ");
            push_decimal(out, data.meta_type.to_base_type().to_base_type() as u64);
            push_bytes(out, &data.data);
            out.push('\n');
        },
    }
    proof {
        assert(final(out)@ =~= start + event_text(event@));
    }
}

fn write_asm_track(track: &Track, out: &mut Vec<char>)
    ensures
        final(out)@ == old(out)@ + "trk"@ + seq!['\n'] + events_text(track@),
{
    let ghost start = out@;
    push_str(out, "trk");
    out.push('\n');
    let ghost after_header = out@;
    let ghost views = track@;
    let mut i: usize = 0;
    assert(views.take(0) =~= Seq::<EventModel>::empty());
    while i < track.events.len()
        invariant
            i <= track.events@.len(),
            views == track@,
            views.len() == track.events@.len(),
            out@ == after_header + events_text(views.take(i as int)),
        decreases track.events@.len() - i,
    {
        let event = &track.events[i];
        assert(views[i as int] == event@);
        write_asm_event(event, out);
        proof {
            assert(views.take(i + 1).drop_last() =~= views.take(i as int));
            assert(out@ =~= after_header + events_text(views.take(i + 1)));
        }
        i += 1;
    }
    assert(views.take(i as int) =~= views);
    proof {
        assert(final(out)@ =~= start + "trk"@ + seq!['\n'] + events_text(track@));
    }
}

/// Writes the textual form of a Standard MIDI File. The header must announce as many tracks as
/// the file holds.
pub fn write_asm(smf: &StandardMidiFile) -> (r: Result<String, Error>)
    ensures
        smf.header.track_count as usize != smf.tracks@.len() ==> (r matches Err(e) && e@ == (ErrorModel::TrackCountMismatch {
            header: smf.header.track_count,
            file: smf.tracks@.len() as usize,
        })),
        smf.header.track_count as usize == smf.tracks@.len() ==> (r matches Ok(text) && text@ == asm_text(smf@)),
{
    if smf.header.track_count as usize != smf.tracks.len() {
        return Err(Error::TrackCountMismatch { header: smf.header.track_count, file: smf.tracks.len() });
    }
    let mut out: Vec<char> = Vec::new();
    push_str(&mut out, "fmt ");
    push_decimal(&mut out, smf.header.format.to_base_type() as u64);
    out.push('\n');
    push_str(&mut out, "div ");
    push_signed_decimal(&mut out, smf.header.division);
    out.push('\n');
    let ghost header_text = out@;
    let ghost views = smf@.tracks;
    let mut i: usize = 0;
    assert(views.take(0) =~= Seq::<Seq<EventModel>>::empty());
    while i < smf.tracks.len()
        invariant
            i <= smf.tracks@.len(),
            views == smf@.tracks,
            views.len() == smf.tracks@.len(),
            out@ == header_text + tracks_text(views.take(i as int)),
        decreases smf.tracks@.len() - i,
    {
        let track = &smf.tracks[i];
        assert(views[i as int] == track@);
        write_asm_track(track, &mut out);
        proof {
            assert(views.take(i + 1).drop_last() =~= views.take(i as int));
            assert(out@ =~= header_text + tracks_text(views.take(i + 1)));
        }
        i += 1;
    }
    assert(views.take(i as int) =~= views);
    proof {
        assert(out@ =~= asm_text(smf@));
    }
    Ok(string_from_chars(out.as_slice()))
}


// ---------------------------------------------------------------------------------------------
// Error messages
// ---------------------------------------------------------------------------------------------

/// What `{:?}` writes of a string: the string between double quotes, with the characters that
/// need it escaped.
pub uninterp spec fn debug_str_text(s: Seq<char>) -> Seq<char>;

/// Calls `<str as Debug>::fmt` through `format!("{:?}", ..)`: the quoted, escaped form of `s`,
/// a function of `s` alone.
#[verifier::external_body]
fn debug_quoted(s: &str) -> (r: String)
    ensures
        r@ == debug_str_text(s@),
{
    format!("{:?}", s)
}

/// The message of an error other than an I/O error; for one, the start of its message.
pub open spec fn error_text(e: ErrorModel) -> Seq<char> {
    match e {
        ErrorModel::Io => "I/O error: "@,
        ErrorModel::TrackCountMismatch { header, file } => "track number mismatch between header ("@
            + dec(header as nat) + ") and file ("@ + dec(file as nat) + ")"@,
        ErrorModel::ExpectedHeader { line_number, expected_mnemonic, obtained_mnemonic } => "line "@
            + dec(line_number as nat) + ": expected header mnemonic "@ + debug_str_text(expected_mnemonic)
            + ", obtained "@ + debug_str_text(obtained_mnemonic),
        ErrorModel::WrongArgumentCount { line_number, mnemonic, expected, obtained } => "line "@
            + dec(line_number as nat) + ": mnemonic "@ + debug_str_text(mnemonic) + " expects "@
            + dec(expected as nat) + " arguments, obtained "@ + dec(obtained as nat),
        ErrorModel::InvalidInteger { line_number, integer_string } => "line "@ + dec(line_number as nat)
            + ": invalid integer "@ + debug_str_text(integer_string),
        ErrorModel::IntegerTooLarge { line_number, value, max_value } => "line "@ + dec(line_number as nat)
            + ": integer "@ + dec(value as nat) + " too large (maximum "@ + dec(max_value as nat)
            + " allowed)"@,
        ErrorModel::IntegerTooSmall { line_number, value, min_value } => "line "@ + dec(line_number as nat)
            + ": integer "@ + dec_signed(value as int) + " too small (minimum "@ + dec_signed(min_value as int)
            + " allowed)"@,
        ErrorModel::UnknownMnemonic { line_number, mnemonic } => "line "@ + dec(line_number as nat)
            + ": unknown mnemonic "@ + debug_str_text(mnemonic),
    }
}

/// Appends the decimal form of a signed 64-bit value.
pub(crate) fn push_signed_decimal_i64(out: &mut Vec<char>, v: i64)
    ensures
        final(out)@ == old(out)@ + dec_signed(v as int),
{
    if v < 0 {
        out.push('-');
        let magnitude: u64 = ((-(v + 1)) as u64) + 1;
        push_decimal(out, magnitude);
        proof {
            assert(final(out)@ =~= old(out)@ + dec_signed(v as int));
        }
    } else {
        push_decimal(out, v as u64);
    }
}

/// Appends "line ", the line number and ": ".
fn push_line_prefix(out: &mut Vec<char>, line_number: usize)
    ensures
        final(out)@ == old(out)@ + "line "@ + dec(line_number as nat),
{
    push_str(out, "line ");
    push_decimal(out, line_number as u64);
}

impl Error {
    /// The human-readable message of the error. For an I/O error it starts with "I/O error: ",
    /// and what `std::io::Error` displays follows.
    pub fn message(&self) -> (r: String)
        ensures
            !(self is Io) ==> r@ == error_text(self@),
            self is Io ==> error_text(self@).is_prefix_of(r@),
    {
        let mut out: Vec<char> = Vec::new();
        match self {
            Error::Io(e) => {
                push_str(&mut out, "I/O error: ");
                let t = e.to_string();
                push_str(&mut out, t.as_str());
                proof {
                    assert(out@.take(11) =~= "I/O error: "@) by {
                        reveal_strlit("I/O error: ");
                    }
                    reveal_strlit("I/O error: ");
                }
            },
            Error::TrackCountMismatch { header, file } => {
                push_str(&mut out, "track number mismatch between header (");
                push_decimal(&mut out, *header as u64);
                push_str(&mut out, ") and file (");
                push_decimal(&mut out, *file as u64);
                push_str(&mut out, ")");
            },
            Error::ExpectedHeader { line_number, expected_mnemonic, obtained_mnemonic } => {
                push_line_prefix(&mut out, *line_number);
                push_str(&mut out, ": expected header mnemonic ");
                let a = debug_quoted(expected_mnemonic);
                push_str(&mut out, a.as_str());
                push_str(&mut out, ", obtained ");
                let b = debug_quoted(obtained_mnemonic.as_str());
                push_str(&mut out, b.as_str());
            },
            Error::WrongArgumentCount { line_number, mnemonic, expected, obtained } => {
                push_line_prefix(&mut out, *line_number);
                push_str(&mut out, ": mnemonic ");
                let a = debug_quoted(mnemonic);
                push_str(&mut out, a.as_str());
                push_str(&mut out, " expects ");
                push_decimal(&mut out, *expected as u64);
                push_str(&mut out, " arguments, obtained ");
                push_decimal(&mut out, *obtained as u64);
            },
            Error::InvalidInteger { line_number, integer_string } => {
                push_line_prefix(&mut out, *line_number);
                push_str(&mut out, ": invalid integer ");
                let a = debug_quoted(integer_string.as_str());
                push_str(&mut out, a.as_str());
            },
            Error::IntegerTooLarge { line_number, value, max_value } => {
                push_line_prefix(&mut out, *line_number);
                push_str(&mut out, ": integer ");
                push_decimal(&mut out, *value);
                push_str(&mut out, " too large (maximum ");
                push_decimal(&mut out, *max_value);
                push_str(&mut out, " allowed)");
            },
            Error::IntegerTooSmall { line_number, value, min_value } => {
                push_line_prefix(&mut out, *line_number);
                push_str(&mut out, ": integer ");
                push_signed_decimal_i64(&mut out, *value);
                push_str(&mut out, " too small (minimum ");
                push_signed_decimal_i64(&mut out, *min_value);
                push_str(&mut out, " allowed)");
            },
            Error::UnknownMnemonic { line_number, mnemonic } => {
                push_line_prefix(&mut out, *line_number);
                push_str(&mut out, ": unknown mnemonic ");
                let a = debug_quoted(mnemonic.as_str());
                push_str(&mut out, a.as_str());
            },
        }
        proof {
            assert(!(self is Io) ==> out@ =~= error_text(self@));
        }
        string_from_chars(out.as_slice())
    }
}


impl Error {
    /// The error underneath: the I/O error of an `Io` error, else none.
    pub fn source(&self) -> (r: Option<&std::io::Error>)
        ensures
            match self {
                Error::Io(e) => r == Some(e),
                _ => r is None,
            },
    {
        match self {
            Error::Io(e) => Some(e),
            _ => None,
        }
    }
}

impl From<std::io::Error> for Error {
    fn from(value: std::io::Error) -> (r: Self) {
        Error::Io(value)
    }
}

impl vstd::std_specs::convert::FromSpecImpl<std::io::Error> for Error {
    open spec fn obeys_from_spec() -> bool {
        true
    }

    open spec fn from_spec(value: std::io::Error) -> Error {
        Error::Io(value)
    }
}


// ---------------------------------------------------------------------------------------------
// The mnemonics of the textual form
// ---------------------------------------------------------------------------------------------

/// The line that the writer writes for each kind of event data: "ch", the channel and "nof",
/// "non", "kpr", "cch", "pch", "cpr" or "pbd" with the message's numbers for a channel message;
/// "tcd", "sps", "ssl", "trq", "tcl", "uf9", "srt", "cnt", "stp", "ufd", "asg" or "rst" for a
/// system message; "syx", "rsx" and "mta" for SysEx, raw SysEx and meta events, the bytes in
/// hexadecimal. An event's line starts with its delta time when that is not zero.
pub proof fn lemma_written_mnemonics(e: EventModel)
    ensures
        e.delta_time > 0 ==> event_text(e) == dec(e.delta_time as nat) + " "@ + data_text(e.data),
        e.delta_time == 0 ==> event_text(e) == data_text(e.data),
        e.data matches EventDataModel::Midi(m) ==> {
            let head = "ch "@ + dec(m.channel@ as nat) + " "@;
            &&& m.message matches Message::NoteOff(n) ==> data_text(e.data)
                == head + "nof "@ + dec(n.note@ as nat) + " "@ + dec(n.value@ as nat) + "\n"@
            &&& m.message matches Message::NoteOn(n) ==> data_text(e.data)
                == head + "non "@ + dec(n.note@ as nat) + " "@ + dec(n.value@ as nat) + "\n"@
            &&& m.message matches Message::KeyPressure(n) ==> data_text(e.data)
                == head + "kpr "@ + dec(n.note@ as nat) + " "@ + dec(n.value@ as nat) + "\n"@
            &&& m.message matches Message::ControlChange(x) ==> data_text(e.data)
                == head + "cch "@ + dec(x.control.spec_code() as nat) + " "@ + dec(x.value@ as nat) + "\n"@
            &&& m.message matches Message::ProgramChange(p) ==> data_text(e.data)
                == head + "pch "@ + dec(p.program@ as nat) + "\n"@
            &&& m.message matches Message::ChannelPressure(x) ==> data_text(e.data)
                == head + "cpr "@ + dec(x.value@ as nat) + "\n"@
            &&& m.message matches Message::PitchBend(p) ==> data_text(e.data)
                == head + "pbd "@ + dec(p.value@ as nat) + "\n"@
        },
        e.data matches EventDataModel::System(s) ==> {
            &&& s matches SystemEventData::TimeCode(t) ==> data_text(e.data)
                == "tcd "@ + dec(t.message_type@ as nat) + " "@ + dec(t.data@ as nat) + "\n"@
            &&& s matches SystemEventData::SongPosition(p) ==> data_text(e.data) == "sps "@ + dec(p.position@ as nat) + "\n"@
            &&& s matches SystemEventData::SongSelect(x) ==> data_text(e.data) == "ssl "@ + dec(x.song@ as nat) + "\n"@
            &&& s is TuneRequest ==> data_text(e.data) == "trq\n"@
            &&& s is TimingClock ==> data_text(e.data) == "tcl\n"@
            &&& s is F9 ==> data_text(e.data) == "uf9\n"@
            &&& s is Start ==> data_text(e.data) == "srt\n"@
            &&& s is Continue ==> data_text(e.data) == "cnt\n"@
            &&& s is Stop ==> data_text(e.data) == "stp\n"@
            &&& s is FD ==> data_text(e.data) == "ufd\n"@
            &&& s is ActiveSensing ==> data_text(e.data) == "asg\n"@
            &&& s is SystemReset ==> data_text(e.data) == "rst\n"@
        },
        e.data matches EventDataModel::SysEx(x) ==> data_text(e.data) == "syx"@ + bytes_text(x) + "\n"@,
        e.data matches EventDataModel::RawSysEx(x) ==> data_text(e.data) == "rsx\n"@ + bytes_text(x) + "\n"@,
        e.data matches EventDataModel::Meta(t, x) ==> data_text(e.data)
            == "mta "@ + dec(t.spec_code() as nat) + bytes_text(x) + "\n"@,
{
    reveal_strlit(" ");
    reveal_strlit("\n");
    reveal_strlit("ch ");
    reveal_strlit("trq\n");
    reveal_strlit("trq");
    reveal_strlit("tcl\n");
    reveal_strlit("tcl");
    reveal_strlit("uf9\n");
    reveal_strlit("uf9");
    reveal_strlit("srt\n");
    reveal_strlit("srt");
    reveal_strlit("cnt\n");
    reveal_strlit("cnt");
    reveal_strlit("stp\n");
    reveal_strlit("stp");
    reveal_strlit("ufd\n");
    reveal_strlit("ufd");
    reveal_strlit("asg\n");
    reveal_strlit("asg");
    reveal_strlit("rst\n");
    reveal_strlit("rst");
    reveal_strlit("rsx\n");
    reveal_strlit("rsx");
    assert(" "@ =~= seq![' ']);
    assert("\n"@ =~= seq!['\n']);
    assert("trq\n"@ =~= "trq"@ + seq!['\n']);
    assert("tcl\n"@ =~= "tcl"@ + seq!['\n']);
    assert("uf9\n"@ =~= "uf9"@ + seq!['\n']);
    assert("srt\n"@ =~= "srt"@ + seq!['\n']);
    assert("cnt\n"@ =~= "cnt"@ + seq!['\n']);
    assert("stp\n"@ =~= "stp"@ + seq!['\n']);
    assert("ufd\n"@ =~= "ufd"@ + seq!['\n']);
    assert("asg\n"@ =~= "asg"@ + seq!['\n']);
    assert("rst\n"@ =~= "rst"@ + seq!['\n']);
    assert("rsx\n"@ =~= "rsx"@ + seq!['\n']);
    match e.data {
        EventDataModel::Midi(m) => {
            let head = "ch "@ + dec(m.channel@ as nat) + " "@;
            assert(data_text(e.data) =~= head + message_text(m.message));
            match m.message {
                Message::NoteOff(n) => assert(data_text(e.data)
                    =~= head + "nof "@ + dec(n.note@ as nat) + " "@ + dec(n.value@ as nat) + "\n"@),
                Message::NoteOn(n) => assert(data_text(e.data)
                    =~= head + "non "@ + dec(n.note@ as nat) + " "@ + dec(n.value@ as nat) + "\n"@),
                Message::KeyPressure(n) => assert(data_text(e.data)
                    =~= head + "kpr "@ + dec(n.note@ as nat) + " "@ + dec(n.value@ as nat) + "\n"@),
                Message::ControlChange(x) => assert(data_text(e.data)
                    =~= head + "cch "@ + dec(x.control.spec_code() as nat) + " "@ + dec(x.value@ as nat) + "\n"@),
                Message::ProgramChange(p) => assert(data_text(e.data) =~= head + "pch "@ + dec(p.program@ as nat) + "\n"@),
                Message::ChannelPressure(x) => assert(data_text(e.data) =~= head + "cpr "@ + dec(x.value@ as nat) + "\n"@),
                Message::PitchBend(p) => assert(data_text(e.data) =~= head + "pbd "@ + dec(p.value@ as nat) + "\n"@),
            }
        },
        EventDataModel::System(s) => {
            match s {
                SystemEventData::TimeCode(t) => assert(data_text(e.data)
                    =~= "tcd "@ + dec(t.message_type@ as nat) + " "@ + dec(t.data@ as nat) + "\n"@),
                SystemEventData::SongPosition(p) => assert(data_text(e.data) =~= "sps "@ + dec(p.position@ as nat) + "\n"@),
                SystemEventData::SongSelect(x) => assert(data_text(e.data) =~= "ssl "@ + dec(x.song@ as nat) + "\n"@),
                _ => {},
            }
        },
        EventDataModel::SysEx(x) => assert(data_text(e.data) =~= "syx"@ + bytes_text(x) + "\n"@),
        EventDataModel::RawSysEx(x) => assert(data_text(e.data) =~= "rsx\n"@ + bytes_text(x) + "\n"@),
        EventDataModel::Meta(t, x) => assert(data_text(e.data) =~= "mta "@ + dec(t.spec_code() as nat) + bytes_text(x) + "\n"@),
    }
    if e.delta_time > 0 {
        assert(event_text(e) =~= dec(e.delta_time as nat) + " "@ + data_text(e.data));
    } else {
        assert(event_text(e) =~= data_text(e.data));
    }
}

} // verus!
