//! Reading back the textual form that `write_asm` writes.

use vstd::prelude::*;

use crate::midi::model::{
    EventDataModel, EventModel, FileHeader, Message, MetaType, MidiEventData, SmfFormat,
    SmfModel, SystemEventData, U14, U3, U4, U7, events_canon, events_wf,
};
use crate::midi::rw_asm::{
    AsmOutcome, AsmState, ErrorModel, asm_run, asm_text, bytes_text, data_text, dec, dec_signed,
    digit_char, digit_value, digits_value, event_data_spec, event_line_spec, event_text,
    events_text, find_char, fold_from, fold_ws, has_radix_prefix, hex_byte, hex_digit_char,
    initial_state, is_ws, line_len, message_text, parse_bounded_spec, parse_bytes_spec,
    parse_i16_spec, parse_signed_spec, parse_unsigned_spec, read_asm_spec, split_from,
    split_spaces, step_folded, strip_comment, text_lines, tracks_text, without_underscores,
};

verus! {

// ---------------------------------------------------------------------------------------------
// Lines
// ---------------------------------------------------------------------------------------------

/// A line: at least its newline, which ends it and occurs nowhere else in it.
pub open spec fn is_line(l: Seq<char>) -> bool {
    &&& l.len() >= 1
    &&& l.last() == '\n'
    &&& forall|i: int| 0 <= i < l.len() - 1 ==> #[trigger] l[i] != '\n'
}

/// The lines, one after the other.
pub open spec fn concat_lines(ls: Seq<Seq<char>>) -> Seq<char>
    decreases ls.len(),
{
    if ls.len() == 0 {
        seq![]
    } else {
        ls[0] + concat_lines(ls.drop_first())
    }
}

proof fn lemma_lines_append(l: Seq<char>, rest: Seq<char>)
    requires
        is_line(l),
    ensures
        text_lines(l + rest) == seq![l] + text_lines(rest),
{
    let t = l + rest;
    assert forall|i: int| 0 <= i < l.len() - 1 implies #[trigger] t[i] != '\n' by {
        assert(t[i] == l[i]);
    }
    crate::midi::rw_asm::lemma_find_char_index(t, '\n', l.len() - 1);
    assert(line_len(t) == l.len());
    assert(t.take(l.len() as int) =~= l);
    assert(t.skip(l.len() as int) =~= rest);
}

proof fn lemma_text_lines_concat(ls: Seq<Seq<char>>)
    requires
        forall|i: int| 0 <= i < ls.len() ==> #[trigger] is_line(ls[i]),
    ensures
        text_lines(concat_lines(ls)) == ls,
    decreases ls.len(),
{
    if ls.len() == 0 {
        assert(text_lines(seq![]) == Seq::<Seq<char>>::empty());
        assert(ls =~= Seq::<Seq<char>>::empty());
    } else {
        let tail = ls.drop_first();
        assert forall|i: int| 0 <= i < tail.len() implies #[trigger] is_line(tail[i]) by {
            assert(tail[i] == ls[i + 1]);
        }
        assert(is_line(ls[0]));
        lemma_text_lines_concat(tail);
        lemma_lines_append(ls[0], concat_lines(tail));
        assert(ls =~= seq![ls[0]] + tail);
    }
}

proof fn lemma_concat_lines_append(a: Seq<Seq<char>>, b: Seq<Seq<char>>)
    ensures
        concat_lines(a + b) == concat_lines(a) + concat_lines(b),
    decreases a.len(),
{
    if a.len() == 0 {
        assert(a + b =~= b);
        assert(concat_lines(a) + concat_lines(b) =~= concat_lines(b));
    } else {
        lemma_concat_lines_append(a.drop_first(), b);
        assert((a + b).drop_first() =~= a.drop_first() + b);
        assert((a + b)[0] == a[0]);
        assert(concat_lines(a + b) =~= concat_lines(a) + concat_lines(b));
    }
}

// ---------------------------------------------------------------------------------------------
// Words
// ---------------------------------------------------------------------------------------------

/// A word: at least one character, none of them whitespace or '#'.
pub open spec fn is_word(w: Seq<char>) -> bool {
    &&& w.len() >= 1
    &&& forall|i: int| 0 <= i < w.len() ==> !is_ws(#[trigger] w[i]) && w[i] != '#'
}

/// Each word, preceded by a space.
pub open spec fn spaced(ws: Seq<Seq<char>>) -> Seq<char>
    decreases ws.len(),
{
    if ws.len() == 0 {
        seq![]
    } else {
        seq![' '] + ws[0] + spaced(ws.drop_first())
    }
}

/// The words, separated by single spaces.
pub open spec fn join(ws: Seq<Seq<char>>) -> Seq<char> {
    ws[0] + spaced(ws.drop_first())
}

/// The line of the words.
pub open spec fn line_of(ws: Seq<Seq<char>>) -> Seq<char> {
    join(ws) + seq!['\n']
}

pub open spec fn all_words(ws: Seq<Seq<char>>) -> bool {
    forall|i: int| 0 <= i < ws.len() ==> #[trigger] is_word(ws[i])
}

proof fn lemma_spaced_push(ws: Seq<Seq<char>>, w: Seq<char>)
    ensures
        spaced(ws.push(w)) == spaced(ws) + seq![' '] + w,
    decreases ws.len(),
{
    if ws.len() == 0 {
        let p = ws.push(w);
        assert(p.drop_first() =~= Seq::<Seq<char>>::empty());
        assert(spaced(p.drop_first()) == Seq::<char>::empty());
        assert(spaced(ws) == Seq::<char>::empty());
        assert(p[0] == w);
        assert(spaced(p) =~= spaced(ws) + seq![' '] + w);
    } else {
        lemma_spaced_push(ws.drop_first(), w);
        assert(ws.push(w).drop_first() =~= ws.drop_first().push(w));
        assert(spaced(ws.push(w)) =~= spaced(ws) + seq![' '] + w);
    }
}

/// A word contributes itself to the folded line.
proof fn lemma_fold_word(w: Seq<char>, rest: Seq<char>, started: bool, pending: bool)
    requires
        w.len() >= 1,
        forall|i: int| 0 <= i < w.len() ==> !is_ws(#[trigger] w[i]),
    ensures
        fold_from(w + rest, started, pending) == (if pending { seq![' '] } else { seq![] }) + w + fold_from(rest, true, false),
    decreases w.len(),
{
    let t = w + rest;
    assert(t[0] == w[0]);
    assert(t.drop_first() =~= w.drop_first() + rest);
    if w.len() == 1 {
        assert(w.drop_first() + rest =~= rest);
        assert(seq![w[0]] =~= w);
    } else {
        let w2 = w.drop_first();
        assert forall|i: int| 0 <= i < w2.len() implies !is_ws(#[trigger] w2[i]) by {
            assert(w2[i] == w[i + 1]);
        }
        lemma_fold_word(w2, rest, true, false);
        assert((if pending { seq![' '] } else { seq![] }) + seq![w[0]] + (w2 + fold_from(rest, true, false))
            =~= (if pending { seq![' '] } else { seq![] }) + w + fold_from(rest, true, false));
    }
}

proof fn lemma_fold_spaced(ws: Seq<Seq<char>>)
    requires
        all_words(ws),
    ensures
        fold_from(spaced(ws) + seq!['\n'], true, false) == spaced(ws),
    decreases ws.len(),
{
    if ws.len() == 0 {
        assert(spaced(ws) == Seq::<char>::empty());
        assert(spaced(ws) + seq!['\n'] =~= seq!['\n']);
        assert(seq!['\n'].drop_first() =~= Seq::<char>::empty());
        assert(is_ws('\n'));
        assert(fold_from(Seq::<char>::empty(), true, true) == Seq::<char>::empty());
    } else {
        let tail = ws.drop_first();
        assert forall|i: int| 0 <= i < tail.len() implies #[trigger] is_word(tail[i]) by {
            assert(tail[i] == ws[i + 1]);
        }
        assert(is_word(ws[0]));
        let rest = spaced(tail) + seq!['\n'];
        let t = spaced(ws) + seq!['\n'];
        assert(t =~= seq![' '] + (ws[0] + rest));
        assert(t.drop_first() =~= ws[0] + rest);
        assert(t[0] == ' ');
        assert(is_ws(' '));
        lemma_fold_word(ws[0], rest, true, true);
        lemma_fold_spaced(tail);
        assert(seq![' '] + ws[0] + spaced(tail) =~= spaced(ws));
    }
}

proof fn lemma_split_word(w: Seq<char>, rest: Seq<char>, cur: Seq<char>)
    requires
        forall|i: int| 0 <= i < w.len() ==> #[trigger] w[i] != ' ',
    ensures
        split_from(w + rest, cur) == split_from(rest, cur + w),
    decreases w.len(),
{
    if w.len() == 0 {
        assert(w + rest =~= rest);
        assert(cur + w =~= cur);
    } else {
        let w2 = w.drop_first();
        assert forall|i: int| 0 <= i < w2.len() implies #[trigger] w2[i] != ' ' by {
            assert(w2[i] == w[i + 1]);
        }
        assert((w + rest)[0] == w[0]);
        assert((w + rest).drop_first() =~= w2 + rest);
        lemma_split_word(w2, rest, cur.push(w[0]));
        assert(cur.push(w[0]) + w2 =~= cur + w);
    }
}

proof fn lemma_split_spaced(ws: Seq<Seq<char>>, cur: Seq<char>)
    requires
        all_words(ws),
    ensures
        split_from(spaced(ws), cur) == seq![cur] + ws,
    decreases ws.len(),
{
    if ws.len() == 0 {
        assert(seq![cur] + ws =~= seq![cur]);
    } else {
        let tail = ws.drop_first();
        assert forall|i: int| 0 <= i < tail.len() implies #[trigger] is_word(tail[i]) by {
            assert(tail[i] == ws[i + 1]);
        }
        assert(is_word(ws[0]));
        assert forall|i: int| 0 <= i < ws[0].len() implies #[trigger] ws[0][i] != ' ' by {
            assert(!is_ws(ws[0][i]));
        }
        let s = spaced(ws);
        assert(s =~= seq![' '] + (ws[0] + spaced(tail)));
        assert(s.drop_first() =~= ws[0] + spaced(tail));
        lemma_split_word(ws[0], spaced(tail), seq![]);
        lemma_split_spaced(tail, Seq::<char>::empty() + ws[0]);
        assert(Seq::<char>::empty() + ws[0] =~= ws[0]);
        assert(seq![cur] + (seq![ws[0]] + tail) =~= seq![cur] + ws);
    }
}

/// A written line of words is its own comment-free form, folds to the words separated by
/// single spaces, and splits into the words.
proof fn lemma_line_of_words(ws: Seq<Seq<char>>)
    requires
        ws.len() >= 1,
        all_words(ws),
    ensures
        is_line(line_of(ws)),
        fold_ws(strip_comment(line_of(ws))) == join(ws),
        join(ws).len() > 0,
        split_spaces(join(ws)) == ws,
{
    let tail = ws.drop_first();
    assert forall|i: int| 0 <= i < tail.len() implies #[trigger] is_word(tail[i]) by {
        assert(tail[i] == ws[i + 1]);
    }
    assert(is_word(ws[0]));
    lemma_spaced_chars(tail);
    let l = line_of(ws);
    assert(l =~= ws[0] + (spaced(tail) + seq!['\n']));
    assert forall|i: int| 0 <= i < l.len() - 1 implies #[trigger] l[i] != '\n' && l[i] != '#' by {
        if i < ws[0].len() {
            assert(l[i] == ws[0][i]);
            assert(!is_ws(ws[0][i]));
        } else {
            assert(l[i] == spaced(tail)[i - ws[0].len()]);
        }
    }
    assert(l[l.len() - 1] == '\n');
    crate::midi::rw_asm::lemma_find_char_index(l, '#', l.len() as int);
    assert(strip_comment(l) =~= l);
    lemma_fold_word(ws[0], spaced(tail) + seq!['\n'], false, false);
    lemma_fold_spaced(tail);
    assert(fold_ws(l) =~= join(ws));
    lemma_split_word(ws[0], spaced(tail), seq![]);
    lemma_split_spaced(tail, Seq::<char>::empty() + ws[0]);
    assert(Seq::<char>::empty() + ws[0] =~= ws[0]);
    assert(seq![ws[0]] + tail =~= ws);
}

/// The characters of the spaced words are spaces and the words' characters.
proof fn lemma_spaced_chars(ws: Seq<Seq<char>>)
    requires
        all_words(ws),
    ensures
        forall|i: int| 0 <= i < spaced(ws).len() ==> #[trigger] spaced(ws)[i] != '\n' && spaced(ws)[i] != '#',
    decreases ws.len(),
{
    if ws.len() > 0 {
        let tail = ws.drop_first();
        assert forall|i: int| 0 <= i < tail.len() implies #[trigger] is_word(tail[i]) by {
            assert(tail[i] == ws[i + 1]);
        }
        assert(is_word(ws[0]));
        lemma_spaced_chars(tail);
        let s = spaced(ws);
        assert(s =~= seq![' '] + ws[0] + spaced(tail));
        assert forall|i: int| 0 <= i < s.len() implies #[trigger] s[i] != '\n' && s[i] != '#' by {
            if i == 0 {
            } else if i < 1 + ws[0].len() {
                assert(s[i] == ws[0][i - 1]);
                assert(!is_ws(ws[0][i - 1]));
            } else {
                assert(s[i] == spaced(tail)[i - 1 - ws[0].len()]);
            }
        }
    }
}

// ---------------------------------------------------------------------------------------------
// Numbers
// ---------------------------------------------------------------------------------------------

pub open spec fn is_digit_char(c: char) -> bool {
    '0' <= c <= '9'
}

proof fn lemma_digit_char(d: nat)
    requires
        d < 10,
    ensures
        is_digit_char(digit_char(d)),
        digit_value(digit_char(d)) == d,
        digit_char(d) == '0' <==> d == 0,
{
}

proof fn lemma_hex_digit_char(d: nat)
    requires
        d < 16,
    ensures
        digit_value(hex_digit_char(d)) == d,
        !is_ws(hex_digit_char(d)),
        hex_digit_char(d) != '#',
        hex_digit_char(d) != '_',
{
}

/// The decimal form of `n`: decimal digits only, no leading zero but for 0 itself, and the
/// value of the digits is `n`.
pub proof fn lemma_dec(n: nat)
    ensures
        dec(n).len() >= 1,
        forall|i: int| 0 <= i < dec(n).len() ==> #[trigger] is_digit_char(dec(n)[i]),
        dec(n)[0] == '0' ==> n == 0 && dec(n).len() == 1,
        digits_value(dec(n), 10) == Some(n),
    decreases n,
{
    if n < 10 {
        lemma_digit_char(n);
        let s = dec(n);
        assert(s.drop_last() =~= Seq::<char>::empty());
        assert(digits_value(s.drop_last(), 10) == Some(0nat));
    } else {
        lemma_dec(n / 10);
        lemma_digit_char(n % 10);
        let s = dec(n);
        assert(s.drop_last() =~= dec(n / 10));
        assert(s.last() == digit_char(n % 10));
        assert(s[0] == dec(n / 10)[0]);
        assert forall|i: int| 0 <= i < s.len() implies #[trigger] is_digit_char(s[i]) by {
            if i < s.len() - 1 {
                assert(s[i] == dec(n / 10)[i]);
            }
        }
    }
}

proof fn lemma_digits_are_word(s: Seq<char>)
    requires
        s.len() >= 1,
        forall|i: int| 0 <= i < s.len() ==> #[trigger] is_digit_char(s[i]),
    ensures
        is_word(s),
        without_underscores(s) == s,
{
    assert forall|i: int| 0 <= i < s.len() implies !is_ws(#[trigger] s[i]) && s[i] != '#' && s[i] != '_' by {
        assert(is_digit_char(s[i]));
    }
    lemma_no_underscores(s);
}

proof fn lemma_no_underscores(s: Seq<char>)
    requires
        forall|i: int| 0 <= i < s.len() ==> #[trigger] s[i] != '_',
    ensures
        without_underscores(s) == s,
    decreases s.len(),
{
    if s.len() > 0 {
        let p = s.drop_last();
        assert forall|i: int| 0 <= i < p.len() implies #[trigger] p[i] != '_' by {
            assert(p[i] == s[i]);
        }
        lemma_no_underscores(p);
        assert(s.last() != '_');
        assert(p.push(s.last()) =~= s);
    }
}

/// A decimal number reads back as itself.
pub proof fn lemma_parse_dec(n: nat)
    requires
        n <= u64::MAX,
    ensures
        parse_unsigned_spec(dec(n)) == Some(n as u64),
        is_word(dec(n)),
{
    lemma_dec(n);
    let s = dec(n);
    assert forall|i: int| 0 <= i < s.len() implies #[trigger] s[i] != '_' by {
        assert(is_digit_char(s[i]));
    }
    lemma_digits_are_word(s);
    assert(!has_radix_prefix(s, 'x')) by {
        if s.len() >= 2 {
            assert(is_digit_char(s[1]));
        }
    }
    assert(!has_radix_prefix(s, 'b')) by {
        if s.len() >= 2 {
            assert(is_digit_char(s[1]));
        }
    }
    assert(is_digit_char(s[0]));
}

/// A byte written in hexadecimal reads back as itself.
pub proof fn lemma_parse_hex(b: u8)
    ensures
        parse_unsigned_spec(hex_byte(b)) == Some(b as u64),
        is_word(hex_byte(b)),
{
    let s = hex_byte(b);
    let hi = b as nat / 16;
    let lo = b as nat % 16;
    lemma_hex_digit_char(hi);
    lemma_hex_digit_char(lo);
    assert forall|i: int| 0 <= i < s.len() implies #[trigger] s[i] != '_' by {}
    lemma_no_underscores(s);
    assert forall|i: int| 0 <= i < s.len() implies !is_ws(#[trigger] s[i]) && s[i] != '#' by {}
    let d = s.skip(2);
    assert(d =~= seq![hex_digit_char(hi), hex_digit_char(lo)]);
    assert(d.drop_last() =~= seq![hex_digit_char(hi)]);
    assert(d.drop_last().drop_last() =~= Seq::<char>::empty());
    assert(digits_value(d.drop_last().drop_last(), 16) == Some(0nat));
    assert(digits_value(d.drop_last(), 16) == Some(hi));
    assert(digits_value(d, 16) == Some(hi * 16 + lo));
}

/// A signed decimal number reads back as itself.
pub proof fn lemma_parse_signed(v: i16)
    ensures
        parse_signed_spec(dec_signed(v as int)) == Some(v as i64),
        is_word(dec_signed(v as int)),
{
    if v < 0 {
        let m = (-(v as int)) as nat;
        lemma_dec(m);
        let s = dec_signed(v as int);
        assert(s =~= seq!['-'] + dec(m));
        assert forall|i: int| 0 <= i < s.len() implies #[trigger] s[i] != '_' && !is_ws(s[i]) && s[i] != '#' by {
            if i > 0 {
                assert(s[i] == dec(m)[i - 1]);
                assert(is_digit_char(dec(m)[i - 1]));
            }
        }
        lemma_no_underscores(s);
        assert(s.drop_first() =~= dec(m));
        assert(!has_radix_prefix(s, 'x') && !has_radix_prefix(s, 'b'));
        assert(is_digit_char(dec(m)[0]));
    } else {
        lemma_parse_dec(v as nat);
        let s = dec(v as nat);
        lemma_dec(v as nat);
        lemma_digits_are_word(s);
        assert(s == dec_signed(v as int));
        assert(is_digit_char(s[0]));
        assert(s[0] != '-' && s[0] != '+');
        assert(!has_radix_prefix(s, 'x')) by {
            if s.len() >= 2 {
                assert(is_digit_char(s[1]));
            }
        }
        assert(!has_radix_prefix(s, 'b')) by {
            if s.len() >= 2 {
                assert(is_digit_char(s[1]));
            }
        }
    }
}

/// A word that starts with neither a sign nor a radix prefix and holds a character that is no
/// decimal digit is no unsigned number.
proof fn lemma_not_number(s: Seq<char>, k: int)
    requires
        s.len() >= 1,
        0 <= k < s.len(),
        forall|i: int| 0 <= i < s.len() ==> #[trigger] s[i] != '_',
        s[0] != '+',
        s[0] != '0',
        digit_value(s[k]) >= 10,
    ensures
        parse_unsigned_spec(s) is None,
{
    lemma_no_underscores(s);
    if digits_value(s, 10) is Some {
        crate::midi::rw_asm::lemma_digits_value_prefix(s, 10, k + 1);
        let p = s.take(k + 1);
        assert(p.last() == s[k]);
        assert(p.drop_last() =~= s.take(k));
    }
}

// ---------------------------------------------------------------------------------------------
// The words of each line
// ---------------------------------------------------------------------------------------------

/// The bytes in hexadecimal, one word each.
pub open spec fn hex_words(data: Seq<u8>) -> Seq<Seq<char>> {
    data.map_values(|b: u8| hex_byte(b))
}

proof fn lemma_spaced_append(a: Seq<Seq<char>>, b: Seq<Seq<char>>)
    ensures
        spaced(a + b) == spaced(a) + spaced(b),
    decreases a.len(),
{
    if a.len() == 0 {
        assert(a + b =~= b);
        assert(spaced(a) == Seq::<char>::empty());
        assert(spaced(a) + spaced(b) =~= spaced(b));
    } else {
        lemma_spaced_append(a.drop_first(), b);
        assert((a + b).drop_first() =~= a.drop_first() + b);
        assert((a + b)[0] == a[0]);
        assert(spaced(a + b) =~= spaced(a) + spaced(b));
    }
}

proof fn lemma_bytes_text(data: Seq<u8>)
    ensures
        bytes_text(data) == spaced(hex_words(data)),
        all_words(hex_words(data)),
        parse_bytes_spec(hex_words(data), 0) == Ok::<Seq<u8>, ErrorModel>(data),
    decreases data.len(),
{
    if data.len() == 0 {
        assert(hex_words(data) =~= Seq::<Seq<char>>::empty());
        assert(spaced(hex_words(data)) == Seq::<char>::empty());
        assert(parse_bytes_spec(hex_words(data), 0) == Ok::<Seq<u8>, ErrorModel>(seq![]));
        assert(data =~= Seq::<u8>::empty());
    } else {
        let p = data.drop_last();
        lemma_bytes_text(p);
        lemma_parse_hex(data.last());
        assert(hex_words(data) =~= hex_words(p).push(hex_byte(data.last())));
        lemma_spaced_push(hex_words(p), hex_byte(data.last()));
        assert forall|i: int| 0 <= i < hex_words(data).len() implies #[trigger] is_word(hex_words(data)[i]) by {
            lemma_parse_hex(data[i]);
        }
        lemma_parse_bytes(data, 0);
    }
}

proof fn lemma_parse_bytes(data: Seq<u8>, ln: usize)
    ensures
        parse_bytes_spec(hex_words(data), ln) == Ok::<Seq<u8>, ErrorModel>(data),
    decreases data.len(),
{
    if data.len() == 0 {
        assert(hex_words(data) =~= Seq::<Seq<char>>::empty());
        assert(data =~= Seq::<u8>::empty());
    } else {
        lemma_parse_hex(data[0]);
        lemma_parse_bytes(data.drop_first(), ln);
        assert(hex_words(data).drop_first() =~= hex_words(data.drop_first()));
        assert(hex_words(data)[0] == hex_byte(data[0]));
        assert(seq![data[0]] + data.drop_first() =~= data);
    }
}

/// The words of a channel message's line, after "ch" and the channel.
pub open spec fn message_words(m: Message) -> Seq<Seq<char>> {
    match m {
        Message::NoteOff(n) => seq!["nof"@, dec(n.note@ as nat), dec(n.value@ as nat)],
        Message::NoteOn(n) => seq!["non"@, dec(n.note@ as nat), dec(n.value@ as nat)],
        Message::KeyPressure(n) => seq!["kpr"@, dec(n.note@ as nat), dec(n.value@ as nat)],
        Message::ControlChange(c) => seq!["cch"@, dec(c.control.spec_code() as nat), dec(c.value@ as nat)],
        Message::ProgramChange(p) => seq!["pch"@, dec(p.program@ as nat)],
        Message::ChannelPressure(c) => seq!["cpr"@, dec(c.value@ as nat)],
        Message::PitchBend(p) => seq!["pbd"@, dec(p.value@ as nat)],
    }
}

/// The words of a system message's line.
pub open spec fn system_words(s: SystemEventData) -> Seq<Seq<char>> {
    match s {
        SystemEventData::TimeCode(t) => seq!["tcd"@, dec(t.message_type@ as nat), dec(t.data@ as nat)],
        SystemEventData::SongPosition(p) => seq!["sps"@, dec(p.position@ as nat)],
        SystemEventData::SongSelect(x) => seq!["ssl"@, dec(x.song@ as nat)],
        SystemEventData::TuneRequest => seq!["trq"@],
        SystemEventData::TimingClock => seq!["tcl"@],
        SystemEventData::F9 => seq!["uf9"@],
        SystemEventData::Start => seq!["srt"@],
        SystemEventData::Continue => seq!["cnt"@],
        SystemEventData::Stop => seq!["stp"@],
        SystemEventData::FD => seq!["ufd"@],
        SystemEventData::ActiveSensing => seq!["asg"@],
        SystemEventData::SystemReset => seq!["rst"@],
    }
}

/// The words of the (first) line of an event's data.
pub open spec fn data_words(d: EventDataModel) -> Seq<Seq<char>> {
    match d {
        EventDataModel::Midi(m) => seq!["ch"@, dec(m.channel@ as nat)] + message_words(m.message),
        EventDataModel::System(s) => system_words(s),
        EventDataModel::SysEx(data) => seq!["syx"@] + hex_words(data),
        EventDataModel::RawSysEx(_) => seq!["rsx"@],
        EventDataModel::Meta(t, data) => seq!["mta"@, dec(t.spec_code() as nat)] + hex_words(data),
    }
}

/// An event that the reader reads back as written: the reader expects one more argument after
/// "cpr" and one fewer after "ssl" than the writer writes, and reads the bytes of a raw SysEx
/// event, which the writer puts on a line of their own, as a line of its own.
pub open spec fn asm_readable(e: EventModel) -> bool {
    data_readable(e.data)
}

proof fn lemma_line1(a: Seq<char>)
    ensures
        line_of(seq![a]) == a + seq!['\n'],
{
    assert(seq![a].drop_first() =~= Seq::<Seq<char>>::empty());
    assert(spaced(Seq::<Seq<char>>::empty()) == Seq::<char>::empty());
    assert(line_of(seq![a]) =~= a + seq!['\n']);
}

proof fn lemma_line_cons(a: Seq<char>, ws: Seq<Seq<char>>)
    requires
        ws.len() >= 1,
    ensures
        line_of(seq![a] + ws) == a + seq![' '] + line_of(ws),
        join(seq![a] + ws) == a + seq![' '] + join(ws),
{
    let v = seq![a] + ws;
    assert(v.drop_first() =~= ws);
    assert(v[0] == a);
    assert(spaced(ws) == seq![' '] + ws[0] + spaced(ws.drop_first()));
    assert(join(v) =~= a + seq![' '] + join(ws));
    assert(line_of(v) =~= a + seq![' '] + line_of(ws));
}

proof fn lemma_line2(a: Seq<char>, b: Seq<char>)
    ensures
        line_of(seq![a, b]) == a + seq![' '] + b + seq!['\n'],
{
    lemma_line1(b);
    lemma_line_cons(a, seq![b]);
    assert(seq![a, b] =~= seq![a] + seq![b]);
    assert(a + seq![' '] + (b + seq!['\n']) =~= a + seq![' '] + b + seq!['\n']);
}

proof fn lemma_line3(a: Seq<char>, b: Seq<char>, c: Seq<char>)
    ensures
        line_of(seq![a, b, c]) == a + seq![' '] + b + seq![' '] + c + seq!['\n'],
{
    lemma_line2(b, c);
    lemma_line_cons(a, seq![b, c]);
    assert(seq![a, b, c] =~= seq![a] + seq![b, c]);
    assert(a + seq![' '] + (b + seq![' '] + c + seq!['\n']) =~= a + seq![' '] + b + seq![' '] + c + seq!['\n']);
}

/// A mnemonic: lower-case letters and digits, a letter first.
proof fn lemma_mnemonic(m: Seq<char>)
    requires
        m.len() >= 1,
        'a' <= m[0] <= 'z',
        forall|i: int| 0 <= i < m.len() ==> ('a' <= #[trigger] m[i] <= 'z' || '0' <= m[i] <= '9'),
    ensures
        is_word(m),
        parse_unsigned_spec(m) is None,
{
    assert forall|i: int| 0 <= i < m.len() implies !is_ws(#[trigger] m[i]) && m[i] != '#' && m[i] != '_' by {}
    lemma_not_number(m, 0);
}

proof fn lemma_text_nof(n: crate::midi::model::NoteMessage)
    requires
        n.note.wf() && n.value.wf(),
    ensures
        message_text(Message::NoteOff(n)) == line_of(message_words(Message::NoteOff(n))),
        all_words(message_words(Message::NoteOff(n))),
{
    let w = message_words(Message::NoteOff(n));
    lemma_parse_dec(n.note@ as nat);
    lemma_parse_dec(n.value@ as nat);
    reveal_strlit("nof ");
    reveal_strlit("nof");
    lemma_mnemonic("nof"@);
    lemma_line3("nof"@, dec(n.note@ as nat), dec(n.value@ as nat));
    assert(message_text(Message::NoteOff(n)) =~= line_of(w));
    assert forall|i: int| 0 <= i < w.len() implies #[trigger] is_word(w[i]) by {}
}

proof fn lemma_text_non(n: crate::midi::model::NoteMessage)
    requires
        n.note.wf() && n.value.wf(),
    ensures
        message_text(Message::NoteOn(n)) == line_of(message_words(Message::NoteOn(n))),
        all_words(message_words(Message::NoteOn(n))),
{
    let w = message_words(Message::NoteOn(n));
    lemma_parse_dec(n.note@ as nat);
    lemma_parse_dec(n.value@ as nat);
    reveal_strlit("non ");
    reveal_strlit("non");
    lemma_mnemonic("non"@);
    lemma_line3("non"@, dec(n.note@ as nat), dec(n.value@ as nat));
    assert(message_text(Message::NoteOn(n)) =~= line_of(w));
    assert forall|i: int| 0 <= i < w.len() implies #[trigger] is_word(w[i]) by {}
}

proof fn lemma_text_kpr(n: crate::midi::model::NoteMessage)
    requires
        n.note.wf() && n.value.wf(),
    ensures
        message_text(Message::KeyPressure(n)) == line_of(message_words(Message::KeyPressure(n))),
        all_words(message_words(Message::KeyPressure(n))),
{
    let w = message_words(Message::KeyPressure(n));
    lemma_parse_dec(n.note@ as nat);
    lemma_parse_dec(n.value@ as nat);
    reveal_strlit("kpr ");
    reveal_strlit("kpr");
    lemma_mnemonic("kpr"@);
    lemma_line3("kpr"@, dec(n.note@ as nat), dec(n.value@ as nat));
    assert(message_text(Message::KeyPressure(n)) =~= line_of(w));
    assert forall|i: int| 0 <= i < w.len() implies #[trigger] is_word(w[i]) by {}
}

proof fn lemma_text_cch(c: crate::midi::model::ControlChangeMessage)
    requires
        c.control.wf() && c.value.wf(),
    ensures
        message_text(Message::ControlChange(c)) == line_of(message_words(Message::ControlChange(c))),
        all_words(message_words(Message::ControlChange(c))),
{
    let w = message_words(Message::ControlChange(c));
    crate::midi::model::lemma_control_value_roundtrip(c.control);
    lemma_parse_dec(c.control.spec_code() as nat);
    lemma_parse_dec(c.value@ as nat);
    reveal_strlit("cch ");
    reveal_strlit("cch");
    lemma_mnemonic("cch"@);
    lemma_line3("cch"@, dec(c.control.spec_code() as nat), dec(c.value@ as nat));
    assert(message_text(Message::ControlChange(c)) =~= line_of(w));
    assert forall|i: int| 0 <= i < w.len() implies #[trigger] is_word(w[i]) by {}
}

proof fn lemma_text_pch(p: crate::midi::model::ProgramChangeMessage)
    requires
        p.program.wf(),
    ensures
        message_text(Message::ProgramChange(p)) == line_of(message_words(Message::ProgramChange(p))),
        all_words(message_words(Message::ProgramChange(p))),
{
    let w = message_words(Message::ProgramChange(p));
    lemma_parse_dec(p.program@ as nat);
    reveal_strlit("pch ");
    reveal_strlit("pch");
    lemma_mnemonic("pch"@);
    lemma_line2("pch"@, dec(p.program@ as nat));
    assert(message_text(Message::ProgramChange(p)) =~= line_of(w));
    assert forall|i: int| 0 <= i < w.len() implies #[trigger] is_word(w[i]) by {}
}

proof fn lemma_text_cpr(c: crate::midi::model::ChannelValueMessage)
    requires
        c.value.wf(),
    ensures
        message_text(Message::ChannelPressure(c)) == line_of(message_words(Message::ChannelPressure(c))),
        all_words(message_words(Message::ChannelPressure(c))),
{
    let w = message_words(Message::ChannelPressure(c));
    lemma_parse_dec(c.value@ as nat);
    reveal_strlit("cpr ");
    reveal_strlit("cpr");
    lemma_mnemonic("cpr"@);
    lemma_line2("cpr"@, dec(c.value@ as nat));
    assert(message_text(Message::ChannelPressure(c)) =~= line_of(w));
    assert forall|i: int| 0 <= i < w.len() implies #[trigger] is_word(w[i]) by {}
}

proof fn lemma_text_pbd(p: crate::midi::model::PitchBendMessage)
    requires
        p.value.wf(),
    ensures
        message_text(Message::PitchBend(p)) == line_of(message_words(Message::PitchBend(p))),
        all_words(message_words(Message::PitchBend(p))),
{
    let w = message_words(Message::PitchBend(p));
    lemma_parse_dec(p.value@ as nat);
    reveal_strlit("pbd ");
    reveal_strlit("pbd");
    lemma_mnemonic("pbd"@);
    lemma_line2("pbd"@, dec(p.value@ as nat));
    assert(message_text(Message::PitchBend(p)) =~= line_of(w));
    assert forall|i: int| 0 <= i < w.len() implies #[trigger] is_word(w[i]) by {}
}

proof fn lemma_message_text(msg: Message)
    requires
        msg.wf(),
    ensures
        message_text(msg) == line_of(message_words(msg)),
        all_words(message_words(msg)),
{
    match msg {
        Message::NoteOff(n) => lemma_text_nof(n),
        Message::NoteOn(n) => lemma_text_non(n),
        Message::KeyPressure(n) => lemma_text_kpr(n),
        Message::ControlChange(c) => lemma_text_cch(c),
        Message::ProgramChange(p) => lemma_text_pch(p),
        Message::ChannelPressure(c) => lemma_text_cpr(c),
        Message::PitchBend(p) => lemma_text_pbd(p),
    }
}

proof fn lemma_parse_nof(n: crate::midi::model::NoteMessage, ln: usize, pre: Seq<Seq<char>>)
    requires
        n.note.wf() && n.value.wf(),
        pre.len() == 2,
    ensures
        crate::midi::rw_asm::channel_message_spec(pre + message_words(Message::NoteOff(n)), ln)
            == Ok::<Message, ErrorModel>(Message::NoteOff(n).canon()),
{
    let m = pre + message_words(Message::NoteOff(n));
    lemma_parse_dec(n.note@ as nat);
    lemma_parse_dec(n.value@ as nat);
    assert(m.len() == 5);
    assert(m[2] == "nof"@ && m[3] == dec(n.note@ as nat) && m[4] == dec(n.value@ as nat));
    assert(U7(n.note@) == n.note);
    assert(U7(n.value@) == n.value);
}

proof fn lemma_parse_non(n: crate::midi::model::NoteMessage, ln: usize, pre: Seq<Seq<char>>)
    requires
        n.note.wf() && n.value.wf(),
        pre.len() == 2,
    ensures
        crate::midi::rw_asm::channel_message_spec(pre + message_words(Message::NoteOn(n)), ln)
            == Ok::<Message, ErrorModel>(Message::NoteOn(n).canon()),
{
    let m = pre + message_words(Message::NoteOn(n));
    lemma_parse_dec(n.note@ as nat);
    lemma_parse_dec(n.value@ as nat);
    reveal_strlit("non");
    reveal_strlit("nof");
    assert("non"@[2] != "nof"@[2]);
    assert(m.len() == 5);
    assert(m[2] == "non"@ && m[3] == dec(n.note@ as nat) && m[4] == dec(n.value@ as nat));
    assert(U7(n.note@) == n.note);
    assert(U7(n.value@) == n.value);
}

proof fn lemma_parse_kpr(n: crate::midi::model::NoteMessage, ln: usize, pre: Seq<Seq<char>>)
    requires
        n.note.wf() && n.value.wf(),
        pre.len() == 2,
    ensures
        crate::midi::rw_asm::channel_message_spec(pre + message_words(Message::KeyPressure(n)), ln)
            == Ok::<Message, ErrorModel>(Message::KeyPressure(n).canon()),
{
    let m = pre + message_words(Message::KeyPressure(n));
    lemma_parse_dec(n.note@ as nat);
    lemma_parse_dec(n.value@ as nat);
    reveal_strlit("kpr");
    reveal_strlit("nof");
    reveal_strlit("non");
    assert("kpr"@[0] != "nof"@[0]);
    assert("kpr"@[0] != "non"@[0]);
    assert(m.len() == 5);
    assert(m[2] == "kpr"@ && m[3] == dec(n.note@ as nat) && m[4] == dec(n.value@ as nat));
    assert(U7(n.note@) == n.note);
    assert(U7(n.value@) == n.value);
}

proof fn lemma_parse_cch(c: crate::midi::model::ControlChangeMessage, ln: usize, pre: Seq<Seq<char>>)
    requires
        c.control.wf() && c.value.wf(),
        pre.len() == 2,
    ensures
        crate::midi::rw_asm::channel_message_spec(pre + message_words(Message::ControlChange(c)), ln)
            == Ok::<Message, ErrorModel>(Message::ControlChange(c).canon()),
{
    let m = pre + message_words(Message::ControlChange(c));
    crate::midi::model::lemma_control_value_roundtrip(c.control);
    lemma_parse_dec(c.control.spec_code() as nat);
    lemma_parse_dec(c.value@ as nat);
    reveal_strlit("cch");
    reveal_strlit("nof");
    reveal_strlit("non");
    reveal_strlit("kpr");
    assert("cch"@[0] != "nof"@[0]);
    assert("cch"@[0] != "non"@[0]);
    assert("cch"@[0] != "kpr"@[0]);
    assert(m.len() == 5);
    assert(m[2] == "cch"@ && m[3] == dec(c.control.spec_code() as nat) && m[4] == dec(c.value@ as nat));
    assert(U7(c.value@) == c.value);
}

proof fn lemma_parse_pch(p: crate::midi::model::ProgramChangeMessage, ln: usize, pre: Seq<Seq<char>>)
    requires
        p.program.wf(),
        pre.len() == 2,
    ensures
        crate::midi::rw_asm::channel_message_spec(pre + message_words(Message::ProgramChange(p)), ln)
            == Ok::<Message, ErrorModel>(Message::ProgramChange(p).canon()),
{
    let m = pre + message_words(Message::ProgramChange(p));
    lemma_parse_dec(p.program@ as nat);
    reveal_strlit("pch");
    reveal_strlit("nof");
    reveal_strlit("non");
    reveal_strlit("kpr");
    reveal_strlit("cch");
    assert("pch"@[0] != "nof"@[0]);
    assert("pch"@[0] != "non"@[0]);
    assert("pch"@[0] != "kpr"@[0]);
    assert("pch"@[0] != "cch"@[0]);
    assert(m.len() == 4);
    assert(m[2] == "pch"@ && m[3] == dec(p.program@ as nat));
    assert(U7(p.program@) == p.program);
}

proof fn lemma_parse_pbd(p: crate::midi::model::PitchBendMessage, ln: usize, pre: Seq<Seq<char>>)
    requires
        p.value.wf(),
        pre.len() == 2,
    ensures
        crate::midi::rw_asm::channel_message_spec(pre + message_words(Message::PitchBend(p)), ln)
            == Ok::<Message, ErrorModel>(Message::PitchBend(p).canon()),
{
    let m = pre + message_words(Message::PitchBend(p));
    lemma_parse_dec(p.value@ as nat);
    reveal_strlit("pbd");
    reveal_strlit("nof");
    reveal_strlit("non");
    reveal_strlit("kpr");
    reveal_strlit("cch");
    reveal_strlit("pch");
    reveal_strlit("cpr");
    assert("pbd"@[0] != "nof"@[0]);
    assert("pbd"@[0] != "non"@[0]);
    assert("pbd"@[0] != "kpr"@[0]);
    assert("pbd"@[0] != "cch"@[0]);
    assert("pbd"@[1] != "pch"@[1]);
    assert("pbd"@[1] != "cpr"@[1]);
    assert(m.len() == 4);
    assert(m[2] == "pbd"@ && m[3] == dec(p.value@ as nat));
    assert(U14(p.value@) == p.value);
}

proof fn lemma_message_parse(msg: Message, ln: usize, pre: Seq<Seq<char>>)
    requires
        msg.wf(),
        !(msg is ChannelPressure),
        pre.len() == 2,
    ensures
        crate::midi::rw_asm::channel_message_spec(pre + message_words(msg), ln) == Ok::<Message, ErrorModel>(msg.canon()),
{
    match msg {
        Message::NoteOff(n) => lemma_parse_nof(n, ln, pre),
        Message::NoteOn(n) => lemma_parse_non(n, ln, pre),
        Message::KeyPressure(n) => lemma_parse_kpr(n, ln, pre),
        Message::ControlChange(c) => lemma_parse_cch(c, ln, pre),
        Message::ProgramChange(p) => lemma_parse_pch(p, ln, pre),
        Message::PitchBend(p) => lemma_parse_pbd(p, ln, pre),
        Message::ChannelPressure(_) => {},
    }
}


// ---------------------------------------------------------------------------------------------
// The line of an event's data
// ---------------------------------------------------------------------------------------------

/// The words lead a line of event data: the first is neither a number nor "trk".
pub open spec fn leads(ws: Seq<Seq<char>>) -> bool {
    &&& ws.len() >= 1
    &&& parse_unsigned_spec(ws[0]) is None
    &&& ws[0] != "trk"@
}

/// What the data's text adds after the line of its words.
pub open spec fn data_extra(d: EventDataModel) -> Seq<char> {
    if d is RawSysEx { seq!['\n'] } else { seq![] }
}

/// What holds of the line of event data `d` that the reader reads back as `d.canon()`.
pub open spec fn data_line_ok(d: EventDataModel, ln: usize) -> bool {
    &&& event_data_spec(data_words(d), ln) == Ok::<EventDataModel, ErrorModel>(d.canon())
    &&& all_words(data_words(d))
    &&& leads(data_words(d))
    &&& data_text(d) == line_of(data_words(d)) + data_extra(d)
}

proof fn lemma_data_trq(ln: usize)
    ensures
        data_line_ok(EventDataModel::System(SystemEventData::TuneRequest), ln),
{
    let d = EventDataModel::System(SystemEventData::TuneRequest);
    let w = data_words(d);
    reveal_strlit("trq");
    reveal_strlit("trk");
    reveal_strlit("ch");
    reveal_strlit("tcd");
    reveal_strlit("sps");
    reveal_strlit("ssl");
    assert("trq"@.len() != "ch"@.len());
    assert("trq"@[1] != "tcd"@[1]);
    assert("trq"@[0] != "sps"@[0]);
    assert("trq"@[0] != "ssl"@[0]);
    assert("trq"@[2] != "trk"@[2]);
    lemma_mnemonic("trq"@);
    lemma_line1("trq"@);
    assert(w == seq!["trq"@]);
    assert(all_words(w));
    assert(data_text(d) =~= line_of(w) + data_extra(d));
}

proof fn lemma_data_tcl(ln: usize)
    ensures
        data_line_ok(EventDataModel::System(SystemEventData::TimingClock), ln),
{
    let d = EventDataModel::System(SystemEventData::TimingClock);
    let w = data_words(d);
    reveal_strlit("tcl");
    reveal_strlit("trk");
    reveal_strlit("ch");
    reveal_strlit("tcd");
    reveal_strlit("sps");
    reveal_strlit("ssl");
    reveal_strlit("trq");
    assert("tcl"@.len() != "ch"@.len());
    assert("tcl"@[2] != "tcd"@[2]);
    assert("tcl"@[0] != "sps"@[0]);
    assert("tcl"@[0] != "ssl"@[0]);
    assert("tcl"@[1] != "trq"@[1]);
    assert("tcl"@[1] != "trk"@[1]);
    lemma_mnemonic("tcl"@);
    lemma_line1("tcl"@);
    assert(w == seq!["tcl"@]);
    assert(all_words(w));
    assert(data_text(d) =~= line_of(w) + data_extra(d));
}

proof fn lemma_data_uf9(ln: usize)
    ensures
        data_line_ok(EventDataModel::System(SystemEventData::F9), ln),
{
    let d = EventDataModel::System(SystemEventData::F9);
    let w = data_words(d);
    reveal_strlit("uf9");
    reveal_strlit("trk");
    reveal_strlit("ch");
    reveal_strlit("tcd");
    reveal_strlit("sps");
    reveal_strlit("ssl");
    reveal_strlit("trq");
    reveal_strlit("tcl");
    assert("uf9"@.len() != "ch"@.len());
    assert("uf9"@[0] != "tcd"@[0]);
    assert("uf9"@[0] != "sps"@[0]);
    assert("uf9"@[0] != "ssl"@[0]);
    assert("uf9"@[0] != "trq"@[0]);
    assert("uf9"@[0] != "tcl"@[0]);
    assert("uf9"@[0] != "trk"@[0]);
    lemma_mnemonic("uf9"@);
    lemma_line1("uf9"@);
    assert(w == seq!["uf9"@]);
    assert(all_words(w));
    assert(data_text(d) =~= line_of(w) + data_extra(d));
}

proof fn lemma_data_srt(ln: usize)
    ensures
        data_line_ok(EventDataModel::System(SystemEventData::Start), ln),
{
    let d = EventDataModel::System(SystemEventData::Start);
    let w = data_words(d);
    reveal_strlit("srt");
    reveal_strlit("trk");
    reveal_strlit("ch");
    reveal_strlit("tcd");
    reveal_strlit("sps");
    reveal_strlit("ssl");
    reveal_strlit("trq");
    reveal_strlit("tcl");
    reveal_strlit("uf9");
    assert("srt"@.len() != "ch"@.len());
    assert("srt"@[0] != "tcd"@[0]);
    assert("srt"@[1] != "sps"@[1]);
    assert("srt"@[1] != "ssl"@[1]);
    assert("srt"@[0] != "trq"@[0]);
    assert("srt"@[0] != "tcl"@[0]);
    assert("srt"@[0] != "uf9"@[0]);
    assert("srt"@[0] != "trk"@[0]);
    lemma_mnemonic("srt"@);
    lemma_line1("srt"@);
    assert(w == seq!["srt"@]);
    assert(all_words(w));
    assert(data_text(d) =~= line_of(w) + data_extra(d));
}

proof fn lemma_data_cnt(ln: usize)
    ensures
        data_line_ok(EventDataModel::System(SystemEventData::Continue), ln),
{
    let d = EventDataModel::System(SystemEventData::Continue);
    let w = data_words(d);
    reveal_strlit("cnt");
    reveal_strlit("trk");
    reveal_strlit("ch");
    reveal_strlit("tcd");
    reveal_strlit("sps");
    reveal_strlit("ssl");
    reveal_strlit("trq");
    reveal_strlit("tcl");
    reveal_strlit("uf9");
    reveal_strlit("srt");
    assert("cnt"@.len() != "ch"@.len());
    assert("cnt"@[0] != "tcd"@[0]);
    assert("cnt"@[0] != "sps"@[0]);
    assert("cnt"@[0] != "ssl"@[0]);
    assert("cnt"@[0] != "trq"@[0]);
    assert("cnt"@[0] != "tcl"@[0]);
    assert("cnt"@[0] != "uf9"@[0]);
    assert("cnt"@[0] != "srt"@[0]);
    assert("cnt"@[0] != "trk"@[0]);
    lemma_mnemonic("cnt"@);
    lemma_line1("cnt"@);
    assert(w == seq!["cnt"@]);
    assert(all_words(w));
    assert(data_text(d) =~= line_of(w) + data_extra(d));
}

proof fn lemma_data_stp(ln: usize)
    ensures
        data_line_ok(EventDataModel::System(SystemEventData::Stop), ln),
{
    let d = EventDataModel::System(SystemEventData::Stop);
    let w = data_words(d);
    reveal_strlit("stp");
    reveal_strlit("trk");
    reveal_strlit("ch");
    reveal_strlit("tcd");
    reveal_strlit("sps");
    reveal_strlit("ssl");
    reveal_strlit("trq");
    reveal_strlit("tcl");
    reveal_strlit("uf9");
    reveal_strlit("srt");
    reveal_strlit("cnt");
    assert("stp"@.len() != "ch"@.len());
    assert("stp"@[0] != "tcd"@[0]);
    assert("stp"@[1] != "sps"@[1]);
    assert("stp"@[1] != "ssl"@[1]);
    assert("stp"@[0] != "trq"@[0]);
    assert("stp"@[0] != "tcl"@[0]);
    assert("stp"@[0] != "uf9"@[0]);
    assert("stp"@[1] != "srt"@[1]);
    assert("stp"@[0] != "cnt"@[0]);
    assert("stp"@[0] != "trk"@[0]);
    lemma_mnemonic("stp"@);
    lemma_line1("stp"@);
    assert(w == seq!["stp"@]);
    assert(all_words(w));
    assert(data_text(d) =~= line_of(w) + data_extra(d));
}

proof fn lemma_data_ufd(ln: usize)
    ensures
        data_line_ok(EventDataModel::System(SystemEventData::FD), ln),
{
    let d = EventDataModel::System(SystemEventData::FD);
    let w = data_words(d);
    reveal_strlit("ufd");
    reveal_strlit("trk");
    reveal_strlit("ch");
    reveal_strlit("tcd");
    reveal_strlit("sps");
    reveal_strlit("ssl");
    reveal_strlit("trq");
    reveal_strlit("tcl");
    reveal_strlit("uf9");
    reveal_strlit("srt");
    reveal_strlit("cnt");
    reveal_strlit("stp");
    assert("ufd"@.len() != "ch"@.len());
    assert("ufd"@[0] != "tcd"@[0]);
    assert("ufd"@[0] != "sps"@[0]);
    assert("ufd"@[0] != "ssl"@[0]);
    assert("ufd"@[0] != "trq"@[0]);
    assert("ufd"@[0] != "tcl"@[0]);
    assert("ufd"@[2] != "uf9"@[2]);
    assert("ufd"@[0] != "srt"@[0]);
    assert("ufd"@[0] != "cnt"@[0]);
    assert("ufd"@[0] != "stp"@[0]);
    assert("ufd"@[0] != "trk"@[0]);
    lemma_mnemonic("ufd"@);
    lemma_line1("ufd"@);
    assert(w == seq!["ufd"@]);
    assert(all_words(w));
    assert(data_text(d) =~= line_of(w) + data_extra(d));
}

proof fn lemma_data_asg(ln: usize)
    ensures
        data_line_ok(EventDataModel::System(SystemEventData::ActiveSensing), ln),
{
    let d = EventDataModel::System(SystemEventData::ActiveSensing);
    let w = data_words(d);
    reveal_strlit("asg");
    reveal_strlit("trk");
    reveal_strlit("ch");
    reveal_strlit("tcd");
    reveal_strlit("sps");
    reveal_strlit("ssl");
    reveal_strlit("trq");
    reveal_strlit("tcl");
    reveal_strlit("uf9");
    reveal_strlit("srt");
    reveal_strlit("cnt");
    reveal_strlit("stp");
    reveal_strlit("ufd");
    assert("asg"@.len() != "ch"@.len());
    assert("asg"@[0] != "tcd"@[0]);
    assert("asg"@[0] != "sps"@[0]);
    assert("asg"@[0] != "ssl"@[0]);
    assert("asg"@[0] != "trq"@[0]);
    assert("asg"@[0] != "tcl"@[0]);
    assert("asg"@[0] != "uf9"@[0]);
    assert("asg"@[0] != "srt"@[0]);
    assert("asg"@[0] != "cnt"@[0]);
    assert("asg"@[0] != "stp"@[0]);
    assert("asg"@[0] != "ufd"@[0]);
    assert("asg"@[0] != "trk"@[0]);
    lemma_mnemonic("asg"@);
    lemma_line1("asg"@);
    assert(w == seq!["asg"@]);
    assert(all_words(w));
    assert(data_text(d) =~= line_of(w) + data_extra(d));
}

proof fn lemma_data_rst(ln: usize)
    ensures
        data_line_ok(EventDataModel::System(SystemEventData::SystemReset), ln),
{
    let d = EventDataModel::System(SystemEventData::SystemReset);
    let w = data_words(d);
    reveal_strlit("rst");
    reveal_strlit("trk");
    reveal_strlit("ch");
    reveal_strlit("tcd");
    reveal_strlit("sps");
    reveal_strlit("ssl");
    reveal_strlit("trq");
    reveal_strlit("tcl");
    reveal_strlit("uf9");
    reveal_strlit("srt");
    reveal_strlit("cnt");
    reveal_strlit("stp");
    reveal_strlit("ufd");
    reveal_strlit("asg");
    assert("rst"@.len() != "ch"@.len());
    assert("rst"@[0] != "tcd"@[0]);
    assert("rst"@[0] != "sps"@[0]);
    assert("rst"@[0] != "ssl"@[0]);
    assert("rst"@[0] != "trq"@[0]);
    assert("rst"@[0] != "tcl"@[0]);
    assert("rst"@[0] != "uf9"@[0]);
    assert("rst"@[0] != "srt"@[0]);
    assert("rst"@[0] != "cnt"@[0]);
    assert("rst"@[0] != "stp"@[0]);
    assert("rst"@[0] != "ufd"@[0]);
    assert("rst"@[0] != "asg"@[0]);
    assert("rst"@[0] != "trk"@[0]);
    lemma_mnemonic("rst"@);
    lemma_line1("rst"@);
    assert(w == seq!["rst"@]);
    assert(all_words(w));
    assert(data_text(d) =~= line_of(w) + data_extra(d));
}

proof fn lemma_data_tcd(t: crate::midi::model::TimeCodeData, ln: usize)
    requires
        t.message_type.wf() && t.data.wf(),
    ensures
        data_line_ok(EventDataModel::System(SystemEventData::TimeCode(t)), ln),
{
    let d = EventDataModel::System(SystemEventData::TimeCode(t));
    let w = data_words(d);
    reveal_strlit("tcd");
    reveal_strlit("trk");
    reveal_strlit("ch");
    assert("tcd"@.len() != "ch"@.len());
    assert("tcd"@[1] != "trk"@[1]);
    reveal_strlit("tcd ");
    lemma_mnemonic("tcd"@);
    lemma_parse_dec(t.message_type@ as nat);
    lemma_parse_dec(t.data@ as nat);
    lemma_line3("tcd"@, dec(t.message_type@ as nat), dec(t.data@ as nat));
    assert(w.len() == 3);
    assert(w[0] == "tcd"@ && w[1] == dec(t.message_type@ as nat) && w[2] == dec(t.data@ as nat));
    assert(U3(t.message_type@) == t.message_type);
    assert(U4(t.data@) == t.data);
    assert forall|i: int| 0 <= i < w.len() implies #[trigger] is_word(w[i]) by {}
    assert(data_text(d) =~= line_of(w) + data_extra(d));
}

proof fn lemma_data_sps(p: crate::midi::model::SongPositionData, ln: usize)
    requires
        p.position.wf(),
    ensures
        data_line_ok(EventDataModel::System(SystemEventData::SongPosition(p)), ln),
{
    let d = EventDataModel::System(SystemEventData::SongPosition(p));
    let w = data_words(d);
    reveal_strlit("sps");
    reveal_strlit("trk");
    reveal_strlit("ch");
    reveal_strlit("tcd");
    assert("sps"@.len() != "ch"@.len());
    assert("sps"@[0] != "tcd"@[0]);
    assert("sps"@[0] != "trk"@[0]);
    reveal_strlit("sps ");
    lemma_mnemonic("sps"@);
    lemma_parse_dec(p.position@ as nat);
    lemma_line2("sps"@, dec(p.position@ as nat));
    assert(w.len() == 2);
    assert(w[0] == "sps"@ && w[1] == dec(p.position@ as nat));
    assert(U14(p.position@) == p.position);
    assert forall|i: int| 0 <= i < w.len() implies #[trigger] is_word(w[i]) by {}
    assert(data_text(d) =~= line_of(w) + data_extra(d));
}

proof fn lemma_data_system(s: SystemEventData, ln: usize)
    requires
        s.wf(),
        !(s is SongSelect),
    ensures
        data_line_ok(EventDataModel::System(s), ln),
{
    match s {
        SystemEventData::TimeCode(t) => lemma_data_tcd(t, ln),
        SystemEventData::SongPosition(p) => lemma_data_sps(p, ln),
        SystemEventData::SongSelect(_) => {},
        SystemEventData::TuneRequest => lemma_data_trq(ln),
        SystemEventData::TimingClock => lemma_data_tcl(ln),
        SystemEventData::F9 => lemma_data_uf9(ln),
        SystemEventData::Start => lemma_data_srt(ln),
        SystemEventData::Continue => lemma_data_cnt(ln),
        SystemEventData::Stop => lemma_data_stp(ln),
        SystemEventData::FD => lemma_data_ufd(ln),
        SystemEventData::ActiveSensing => lemma_data_asg(ln),
        SystemEventData::SystemReset => lemma_data_rst(ln),
    }
}

proof fn lemma_data_midi(md: MidiEventData, ln: usize)
    requires
        md.wf(),
        !(md.message is ChannelPressure),
    ensures
        data_line_ok(EventDataModel::Midi(md), ln),
{
    let d = EventDataModel::Midi(md);
    let w = data_words(d);
    let pre = seq!["ch"@, dec(md.channel@ as nat)];
    reveal_strlit("ch");
    reveal_strlit("ch ");
    reveal_strlit("trk");
    assert("ch"@.len() != "trk"@.len());
    lemma_mnemonic("ch"@);
    lemma_parse_dec(md.channel@ as nat);
    lemma_message_parse(md.message, ln, pre);
    lemma_message_text(md.message);
    let mw = message_words(md.message);
    assert(w == pre + mw);
    assert(w.len() >= 3);
    assert(w[0] == "ch"@ && w[1] == dec(md.channel@ as nat));
    assert(U4(md.channel@) == md.channel);
    assert forall|i: int| 0 <= i < w.len() implies #[trigger] is_word(w[i]) by {
        if i >= 2 {
            assert(w[i] == mw[i - 2]);
        }
    }
    assert(mw.len() >= 1);
    lemma_line_cons(dec(md.channel@ as nat), mw);
    assert(seq![dec(md.channel@ as nat)] + mw =~= w.drop_first());
    lemma_line_cons("ch"@, w.drop_first());
    assert(seq!["ch"@] + w.drop_first() =~= w);
    assert(data_text(d) =~= line_of(w) + data_extra(d));
}

proof fn lemma_data_syx(data: Seq<u8>, ln: usize)
    ensures
        data_line_ok(EventDataModel::SysEx(data), ln),
{
    let d = EventDataModel::SysEx(data);
    let w = data_words(d);
    let hw = hex_words(data);
    reveal_strlit("syx");
    reveal_strlit("trk");
    reveal_strlit("ch");
    reveal_strlit("tcd");
    reveal_strlit("sps");
    reveal_strlit("ssl");
    reveal_strlit("trq");
    reveal_strlit("tcl");
    reveal_strlit("uf9");
    reveal_strlit("srt");
    reveal_strlit("cnt");
    reveal_strlit("stp");
    reveal_strlit("ufd");
    reveal_strlit("asg");
    reveal_strlit("rst");
    assert("syx"@.len() != "ch"@.len());
    assert("syx"@[0] != "tcd"@[0]);
    assert("syx"@[1] != "sps"@[1]);
    assert("syx"@[1] != "ssl"@[1]);
    assert("syx"@[0] != "trq"@[0]);
    assert("syx"@[0] != "tcl"@[0]);
    assert("syx"@[0] != "uf9"@[0]);
    assert("syx"@[1] != "srt"@[1]);
    assert("syx"@[0] != "cnt"@[0]);
    assert("syx"@[1] != "stp"@[1]);
    assert("syx"@[0] != "ufd"@[0]);
    assert("syx"@[0] != "asg"@[0]);
    assert("syx"@[0] != "rst"@[0]);
    assert("syx"@[0] != "trk"@[0]);
    lemma_mnemonic("syx"@);
    lemma_bytes_text(data);
    lemma_parse_bytes(data, ln);
    assert(w == seq!["syx"@] + hw);
    assert(w[0] == "syx"@);
    assert(w.drop_first() =~= hw);
    assert forall|i: int| 0 <= i < w.len() implies #[trigger] is_word(w[i]) by {
        if i >= 1 {
            assert(w[i] == hw[i - 1]);
        }
    }
    assert(data_text(d) =~= line_of(w) + data_extra(d));
}

proof fn lemma_data_rsx(data: Seq<u8>, ln: usize)
    requires
        data.len() == 0,
    ensures
        data_line_ok(EventDataModel::RawSysEx(data), ln),
{
    let d = EventDataModel::RawSysEx(data);
    let w = data_words(d);
    reveal_strlit("rsx");
    reveal_strlit("trk");
    reveal_strlit("ch");
    reveal_strlit("tcd");
    reveal_strlit("sps");
    reveal_strlit("ssl");
    reveal_strlit("trq");
    reveal_strlit("tcl");
    reveal_strlit("uf9");
    reveal_strlit("srt");
    reveal_strlit("cnt");
    reveal_strlit("stp");
    reveal_strlit("ufd");
    reveal_strlit("asg");
    reveal_strlit("rst");
    reveal_strlit("syx");
    assert("rsx"@.len() != "ch"@.len());
    assert("rsx"@[0] != "tcd"@[0]);
    assert("rsx"@[0] != "sps"@[0]);
    assert("rsx"@[0] != "ssl"@[0]);
    assert("rsx"@[0] != "trq"@[0]);
    assert("rsx"@[0] != "tcl"@[0]);
    assert("rsx"@[0] != "uf9"@[0]);
    assert("rsx"@[0] != "srt"@[0]);
    assert("rsx"@[0] != "cnt"@[0]);
    assert("rsx"@[0] != "stp"@[0]);
    assert("rsx"@[0] != "ufd"@[0]);
    assert("rsx"@[0] != "asg"@[0]);
    assert("rsx"@[2] != "rst"@[2]);
    assert("rsx"@[0] != "syx"@[0]);
    assert("rsx"@[0] != "trk"@[0]);
    lemma_mnemonic("rsx"@);
    lemma_line1("rsx"@);
    assert(w == seq!["rsx"@]);
    assert(w.drop_first() =~= Seq::<Seq<char>>::empty());
    assert(parse_bytes_spec(w.drop_first(), ln) == Ok::<Seq<u8>, ErrorModel>(seq![]));
    assert(data =~= Seq::<u8>::empty());
    assert(bytes_text(data) == Seq::<char>::empty());
    assert(all_words(w));
    assert(data_text(d) =~= line_of(w) + data_extra(d));
}

/// "mta" is a mnemonic that differs from those the reader tries before it.
proof fn lemma_name_mta()
    ensures
        "mta"@ != "ch"@,
        "mta"@ != "tcd"@,
        "mta"@ != "sps"@,
        "mta"@ != "ssl"@,
        "mta"@ != "trq"@,
        "mta"@ != "tcl"@,
        "mta"@ != "uf9"@,
        "mta"@ != "srt"@,
        "mta"@ != "cnt"@,
        "mta"@ != "stp"@,
        "mta"@ != "ufd"@,
        "mta"@ != "asg"@,
        "mta"@ != "rst"@,
        "mta"@ != "syx"@,
        "mta"@ != "rsx"@,
        "mta"@ != "trk"@,
        "mta "@ == "mta"@ + seq![' '],
        is_word("mta"@),
        parse_unsigned_spec("mta"@) is None,
{
    reveal_strlit("mta");
    reveal_strlit("trk");
    reveal_strlit("ch");
    reveal_strlit("tcd");
    reveal_strlit("sps");
    reveal_strlit("ssl");
    reveal_strlit("trq");
    reveal_strlit("tcl");
    reveal_strlit("uf9");
    reveal_strlit("srt");
    reveal_strlit("cnt");
    reveal_strlit("stp");
    reveal_strlit("ufd");
    reveal_strlit("asg");
    reveal_strlit("rst");
    reveal_strlit("syx");
    reveal_strlit("rsx");
    assert("mta"@.len() != "ch"@.len());
    assert("mta"@[0] != "tcd"@[0]);
    assert("mta"@[0] != "sps"@[0]);
    assert("mta"@[0] != "ssl"@[0]);
    assert("mta"@[0] != "trq"@[0]);
    assert("mta"@[0] != "tcl"@[0]);
    assert("mta"@[0] != "uf9"@[0]);
    assert("mta"@[0] != "srt"@[0]);
    assert("mta"@[0] != "cnt"@[0]);
    assert("mta"@[0] != "stp"@[0]);
    assert("mta"@[0] != "ufd"@[0]);
    assert("mta"@[0] != "asg"@[0]);
    assert("mta"@[0] != "rst"@[0]);
    assert("mta"@[0] != "syx"@[0]);
    assert("mta"@[0] != "rsx"@[0]);
    assert("mta"@[0] != "trk"@[0]);
    reveal_strlit("mta ");
    lemma_mnemonic("mta"@);
    assert("mta "@ =~= "mta"@ + seq![' ']);
}

proof fn lemma_parse_mta(t: MetaType, data: Seq<u8>, ln: usize)
    requires
        t.wf(),
    ensures
        event_data_spec(data_words(EventDataModel::Meta(t, data)), ln)
            == Ok::<EventDataModel, ErrorModel>(EventDataModel::Meta(t, data).canon()),
{
    let w = data_words(EventDataModel::Meta(t, data));
    let hw = hex_words(data);
    let code = t.spec_code();
    lemma_name_mta();
    assert(code <= 127);
    lemma_parse_dec(code as nat);
    lemma_parse_bytes(data, ln);
    assert(w == seq!["mta"@, dec(code as nat)] + hw);
    assert(w.len() >= 2);
    assert(w[0] == "mta"@ && w[1] == dec(code as nat));
    assert(w.skip(2) =~= hw);
}

proof fn lemma_data_mta(t: MetaType, data: Seq<u8>, ln: usize)
    requires
        t.wf(),
    ensures
        data_line_ok(EventDataModel::Meta(t, data), ln),
{
    let d = EventDataModel::Meta(t, data);
    let w = data_words(d);
    let hw = hex_words(data);
    let code = t.spec_code();
    lemma_name_mta();
    lemma_parse_mta(t, data, ln);
    assert(code <= 127);
    lemma_parse_dec(code as nat);
    lemma_bytes_text(data);
    assert(w == seq!["mta"@, dec(code as nat)] + hw);
    assert(w[0] == "mta"@);
    assert forall|i: int| 0 <= i < w.len() implies #[trigger] is_word(w[i]) by {
        if i >= 2 {
            assert(w[i] == hw[i - 2]);
        }
    }
    let tail = w.drop_first();
    assert(tail =~= seq![dec(code as nat)] + hw);
    assert(tail.drop_first() =~= hw);
    assert(join(tail) =~= dec(code as nat) + spaced(hw));
    assert(spaced(tail) == seq![' '] + tail[0] + spaced(tail.drop_first()));
    assert(data_text(d) =~= line_of(w) + data_extra(d));
}

/// Event data that the reader reads back as written (see `asm_readable`).
pub open spec fn data_readable(d: EventDataModel) -> bool {
    match d {
        EventDataModel::Midi(m) => !(m.message is ChannelPressure),
        EventDataModel::System(s) => !(s is SongSelect),
        EventDataModel::RawSysEx(data) => data.len() == 0,
        _ => true,
    }
}

proof fn lemma_data_line(d: EventDataModel, ln: usize)
    requires
        d.wf(),
        data_readable(d),
    ensures
        data_line_ok(d, ln),
{
    match d {
        EventDataModel::Midi(md) => lemma_data_midi(md, ln),
        EventDataModel::System(s) => lemma_data_system(s, ln),
        EventDataModel::SysEx(data) => lemma_data_syx(data, ln),
        EventDataModel::RawSysEx(data) => lemma_data_rsx(data, ln),
        EventDataModel::Meta(t, data) => lemma_data_mta(t, data, ln),
    }
}


// ---------------------------------------------------------------------------------------------
// The lines of an event
// ---------------------------------------------------------------------------------------------

/// The words of an event's (first) line: its delta time when not zero, then its data's words.
pub open spec fn event_words(e: EventModel) -> Seq<Seq<char>> {
    (if e.delta_time > 0 { seq![dec(e.delta_time as nat)] } else { seq![] }) + data_words(e.data)
}

/// The lines of an event: that of its words, and for a raw SysEx event the (empty) line of its
/// bytes.
pub open spec fn event_lines(e: EventModel) -> Seq<Seq<char>> {
    if e.data is RawSysEx {
        seq![line_of(event_words(e)), seq!['\n']]
    } else {
        seq![line_of(event_words(e))]
    }
}

pub open spec fn all_lines(ls: Seq<Seq<char>>) -> bool {
    forall|i: int| 0 <= i < ls.len() ==> #[trigger] is_line(ls[i])
}

/// The reader has read the header and the start of a track.
pub open spec fn in_track(st: AsmState) -> bool {
    &&& st.format is Some
    &&& st.division is Some
    &&& st.track_started
}

/// The state with `cur` as the events of the current track.
pub open spec fn with_current(st: AsmState, cur: Seq<EventModel>) -> AsmState {
    AsmState { format: st.format, division: st.division, track_started: st.track_started, current: cur, tracks: st.tracks }
}

/// Running the lines `a + b` runs `a`, then `b` from where `a` left off.
proof fn lemma_run_append(a: Seq<Seq<char>>, b: Seq<Seq<char>>, st: AsmState, ln: usize)
    ensures
        asm_run(a + b, st, ln) == (match asm_run(a, st, ln) {
            AsmOutcome::Done((s2, l2)) => asm_run(b, s2, l2),
            AsmOutcome::Fails(e) => AsmOutcome::<(AsmState, usize)>::Fails(e),
            AsmOutcome::Panics => AsmOutcome::<(AsmState, usize)>::Panics,
        }),
    decreases a.len(),
{
    if a.len() == 0 {
        assert(a + b =~= b);
    } else {
        assert((a + b)[0] == a[0]);
        assert((a + b).drop_first() =~= a.drop_first() + b);
        let ln1 = (ln + 1) as usize;
        match step_folded(st, fold_ws(strip_comment(a[0])), ln1) {
            AsmOutcome::Done(s1) => lemma_run_append(a.drop_first(), b, s1, ln1),
            _ => {},
        }
    }
}

/// A line of words that the reader takes for the words themselves.
proof fn lemma_run_one(ws: Seq<Seq<char>>, st: AsmState, ln: usize)
    requires
        ws.len() >= 1,
        all_words(ws),
    ensures
        asm_run(seq![line_of(ws)], st, ln) == (match step_folded(st, join(ws), (ln + 1) as usize) {
            AsmOutcome::Done(s2) => AsmOutcome::Done((s2, (ln + 1) as usize)),
            AsmOutcome::Fails(e) => AsmOutcome::<(AsmState, usize)>::Fails(e),
            AsmOutcome::Panics => AsmOutcome::<(AsmState, usize)>::Panics,
        }),
        is_line(line_of(ws)),
{
    lemma_line_of_words(ws);
    let ls = seq![line_of(ws)];
    let ln1 = (ln + 1) as usize;
    assert(ls[0] == line_of(ws));
    assert(ls.drop_first() =~= Seq::<Seq<char>>::empty());
    assert(fold_ws(strip_comment(ls[0])) == join(ws));
    match step_folded(st, join(ws), ln1) {
        AsmOutcome::Done(s2) => {
            assert(asm_run(ls.drop_first(), s2, ln1) == AsmOutcome::Done((s2, ln1)));
        },
        _ => {},
    }
}

/// The empty line changes nothing.
proof fn lemma_run_empty_line(st: AsmState, ln: usize)
    ensures
        asm_run(seq![seq!['\n']], st, ln) == AsmOutcome::Done((st, (ln + 1) as usize)),
        is_line(seq!['\n']),
{
    let l = seq!['\n'];
    let ls = seq![l];
    assert(ls[0] == l);
    assert(ls.drop_first() =~= Seq::<Seq<char>>::empty());
    assert(l.drop_first() =~= Seq::<char>::empty());
    assert(l[0] == '\n');
    assert(find_char(l.drop_first(), '#') == 0);
    assert(find_char(l, '#') == 1);
    assert(strip_comment(l) =~= l);
    assert(is_ws('\n'));
    assert(fold_from(l.drop_first(), false, false) == Seq::<char>::empty());
    assert(fold_ws(l) =~= Seq::<char>::empty());
    assert(fold_ws(strip_comment(ls[0])) =~= Seq::<char>::empty());
    let ln1 = (ln + 1) as usize;
    assert(step_folded(st, Seq::<char>::empty(), ln1) == AsmOutcome::Done(st));
    assert(asm_run(ls.drop_first(), st, ln1) == AsmOutcome::Done((st, ln1)));
}

/// Reading a line of event data in a track adds the event to the track.
proof fn lemma_step_event(st: AsmState, folded: Seq<char>, ln: usize, ev: EventModel)
    requires
        in_track(st),
        folded.len() > 0,
        split_spaces(folded)[0] != "trk"@,
        event_line_spec(split_spaces(folded), ln) == AsmOutcome::Done(ev),
    ensures
        step_folded(st, folded, ln) == AsmOutcome::Done(with_current(st, st.current.push(ev))),
{
}

proof fn lemma_event_words(e: EventModel, ln: usize)
    requires
        e.wf(),
        asm_readable(e),
    ensures
        all_words(event_words(e)),
        event_words(e).len() >= 1,
        event_words(e)[0] != "trk"@,
        event_line_spec(event_words(e), ln) == AsmOutcome::Done(e.canon()),
        event_text(e) == line_of(event_words(e)) + data_extra(e.data),
{
    let d = e.data;
    let dw = data_words(d);
    let ew = event_words(e);
    reveal(event_line_spec);
    lemma_data_line(d, ln);
    if e.delta_time > 0 {
        let t = dec(e.delta_time as nat);
        lemma_parse_dec(e.delta_time as nat);
        lemma_dec(e.delta_time as nat);
        assert(ew == seq![t] + dw);
        assert(ew[0] == t);
        assert(ew.drop_first() =~= dw);
        assert forall|i: int| 0 <= i < ew.len() implies #[trigger] is_word(ew[i]) by {
            if i >= 1 {
                assert(ew[i] == dw[i - 1]);
            }
        }
        reveal_strlit("trk");
        assert(is_digit_char(t[0]));
        assert(t[0] != "trk"@[0]);
        lemma_line_cons(t, dw);
        assert(event_text(e) =~= line_of(ew) + data_extra(d));
    } else {
        assert(ew =~= dw);
        assert(event_text(e) =~= line_of(ew) + data_extra(d));
    }
}

/// The text of an event is that of its lines.
proof fn lemma_event_lines(e: EventModel)
    requires
        e.wf(),
        asm_readable(e),
    ensures
        all_lines(event_lines(e)),
        concat_lines(event_lines(e)) == event_text(e),
{
    let ew = event_words(e);
    lemma_event_words(e, 0);
    lemma_line_of_words(ew);
    let l = line_of(ew);
    let nl = seq!['\n'];
    assert(concat_lines(Seq::<Seq<char>>::empty()) == Seq::<char>::empty());
    if e.data is RawSysEx {
        let ls = seq![l, nl];
        assert(ls.drop_first() =~= seq![nl]);
        assert(seq![nl].drop_first() =~= Seq::<Seq<char>>::empty());
        assert(concat_lines(seq![nl]) =~= nl);
        assert(concat_lines(ls) =~= l + nl);
        assert(is_line(nl));
        assert(all_lines(ls));
    } else {
        let ls = seq![l];
        assert(ls.drop_first() =~= Seq::<Seq<char>>::empty());
        assert(concat_lines(ls) =~= l);
        assert(all_lines(ls));
    }
}

/// The lines of an event add the event, in its decoded form, to the current track.
#[verifier::rlimit(50)]
proof fn lemma_event_run(e: EventModel, st: AsmState, ln: usize)
    requires
        e.wf(),
        asm_readable(e),
        in_track(st),
    ensures
        asm_run(event_lines(e), st, ln) matches AsmOutcome::Done((s2, _))
            && s2 == with_current(st, st.current.push(e.canon())),
{
    let ew = event_words(e);
    let ln1 = (ln + 1) as usize;
    lemma_event_words(e, ln1);
    lemma_run_one(ew, st, ln);
    let s2 = with_current(st, st.current.push(e.canon()));
    lemma_line_of_words(ew);
    lemma_step_event(st, join(ew), ln1, e.canon());
    let l = line_of(ew);
    if e.data is RawSysEx {
        lemma_run_empty_line(s2, ln1);
        assert(event_lines(e) =~= seq![l] + seq![seq!['\n']]);
        lemma_run_append(seq![l], seq![seq!['\n']], st, ln);
    } else {
        assert(event_lines(e) =~= seq![l]);
    }
}

// ---------------------------------------------------------------------------------------------
// Tracks and the whole file
// ---------------------------------------------------------------------------------------------

/// The lines of the events, one after the other.
pub open spec fn events_lines(es: Seq<EventModel>) -> Seq<Seq<char>>
    decreases es.len(),
{
    if es.len() == 0 {
        seq![]
    } else {
        events_lines(es.drop_last()) + event_lines(es.last())
    }
}

pub open spec fn all_readable(es: Seq<EventModel>) -> bool {
    forall|i: int| 0 <= i < es.len() ==> #[trigger] asm_readable(es[i])
}

proof fn lemma_events_run(es: Seq<EventModel>, st: AsmState, ln: usize)
    requires
        events_wf(es),
        all_readable(es),
        in_track(st),
    ensures
        asm_run(events_lines(es), st, ln) matches AsmOutcome::Done((s2, _))
            && s2 == with_current(st, st.current + events_canon(es)),
        all_lines(events_lines(es)),
        concat_lines(events_lines(es)) == events_text(es),
    decreases es.len(),
{
    if es.len() == 0 {
        assert(st.current + events_canon(es) =~= st.current);
        assert(concat_lines(events_lines(es)) == Seq::<char>::empty());
    } else {
        let p = es.drop_last();
        let e = es.last();
        assert(events_wf(p)) by {
            assert forall|i: int| 0 <= i < p.len() implies #[trigger] p[i].wf() by {
                assert(p[i] == es[i]);
            }
        }
        assert(all_readable(p)) by {
            assert forall|i: int| 0 <= i < p.len() implies #[trigger] asm_readable(p[i]) by {
                assert(p[i] == es[i]);
            }
        }
        assert(es[es.len() - 1].wf() && asm_readable(es[es.len() - 1]));
        lemma_events_run(p, st, ln);
        lemma_run_append(events_lines(p), event_lines(e), st, ln);
        let (s1, l1) = asm_run(events_lines(p), st, ln)->Done_0;
        lemma_event_run(e, s1, l1);
        lemma_event_lines(e);
        assert(events_canon(es) =~= events_canon(p).push(e.canon()));
        assert(st.current + events_canon(es) =~= (st.current + events_canon(p)).push(e.canon()));
        lemma_concat_lines_append(events_lines(p), event_lines(e));
        assert(all_lines(events_lines(es))) by {
            let a = events_lines(p);
            let b = event_lines(e);
            assert forall|i: int| 0 <= i < a.len() + b.len() implies #[trigger] is_line((a + b)[i]) by {
                if i < a.len() {
                    assert(is_line(a[i]));
                } else {
                    assert(is_line(b[i - a.len()]));
                }
            }
        }
    }
}


/// The line that starts a track.
pub open spec fn trk_line() -> Seq<char> {
    line_of(seq!["trk"@])
}

/// The lines of a track: "trk", then its events.
pub open spec fn track_lines(t: Seq<EventModel>) -> Seq<Seq<char>> {
    seq![trk_line()] + events_lines(t)
}

/// The lines of the tracks, one after the other.
pub open spec fn tracks_lines(ts: Seq<Seq<EventModel>>) -> Seq<Seq<char>>
    decreases ts.len(),
{
    if ts.len() == 0 {
        seq![]
    } else {
        tracks_lines(ts.drop_last()) + track_lines(ts.last())
    }
}

/// The tracks, each in the form that decoding produces.
pub open spec fn tracks_canon(ts: Seq<Seq<EventModel>>) -> Seq<Seq<EventModel>> {
    ts.map_values(|t: Seq<EventModel>| events_canon(t))
}

/// Every event of every track is well formed and read back as written.
pub open spec fn tracks_ok(ts: Seq<Seq<EventModel>>) -> bool {
    forall|i: int| 0 <= i < ts.len() ==> events_wf(#[trigger] ts[i]) && all_readable(ts[i])
}

/// The state that a "trk" line leads to.
pub open spec fn after_trk(st: AsmState) -> AsmState {
    if st.track_started {
        AsmState { format: st.format, division: st.division, track_started: true, current: seq![], tracks: st.tracks.push(st.current) }
    } else {
        AsmState { format: st.format, division: st.division, track_started: true, current: st.current, tracks: st.tracks }
    }
}

proof fn lemma_trk_run(st: AsmState, ln: usize)
    requires
        (st.format is Some),
        (st.division is Some),
    ensures
        asm_run(seq![trk_line()], st, ln) == AsmOutcome::Done((after_trk(st), (ln + 1) as usize)),
        is_line(trk_line()),
        trk_line() == "trk"@ + seq!['\n'],
{
    reveal_strlit("trk");
    lemma_mnemonic("trk"@);
    let ws = seq!["trk"@];
    assert(all_words(ws));
    lemma_run_one(ws, st, ln);
    lemma_line_of_words(ws);
    lemma_line1("trk"@);
    let c = split_spaces(join(ws));
    assert(c == ws);
    assert(c[0] == "trk"@);
    assert(c.len() == 1);
}

proof fn lemma_track_run(t: Seq<EventModel>, st: AsmState, ln: usize)
    requires
        (st.format is Some),
        (st.division is Some),
        !st.track_started ==> st.current == Seq::<EventModel>::empty(),
        events_wf(t),
        all_readable(t),
    ensures
        asm_run(track_lines(t), st, ln) matches AsmOutcome::Done((s2, _)) && s2 == (AsmState {
            format: st.format,
            division: st.division,
            track_started: true,
            current: events_canon(t),
            tracks: after_trk(st).tracks,
        }),
        all_lines(track_lines(t)),
        concat_lines(track_lines(t)) == "trk"@ + seq!['\n'] + events_text(t),
{
    lemma_trk_run(st, ln);
    let s1 = after_trk(st);
    let l1 = (ln + 1) as usize;
    assert(s1.current == Seq::<EventModel>::empty());
    lemma_events_run(t, s1, l1);
    lemma_run_append(seq![trk_line()], events_lines(t), st, ln);
    assert(s1.current + events_canon(t) =~= events_canon(t));
    lemma_concat_lines_append(seq![trk_line()], events_lines(t));
    assert(concat_lines(seq![trk_line()]) =~= trk_line()) by {
        let one = seq![trk_line()];
        assert(one[0] == trk_line());
        assert(one.drop_first() =~= Seq::<Seq<char>>::empty());
        assert(concat_lines(one.drop_first()) == Seq::<char>::empty());
    }
    let ls = track_lines(t);
    let el = events_lines(t);
    assert forall|i: int| 0 <= i < ls.len() implies #[trigger] is_line(ls[i]) by {
        if i >= 1 {
            assert(ls[i] == el[i - 1]);
        }
    }
}

proof fn lemma_tracks_run(ts: Seq<Seq<EventModel>>, st: AsmState, ln: usize)
    requires
        ts.len() >= 1,
        tracks_ok(ts),
        (st.format is Some),
        (st.division is Some),
        !st.track_started,
        st.current == Seq::<EventModel>::empty(),
        st.tracks == Seq::<Seq<EventModel>>::empty(),
    ensures
        asm_run(tracks_lines(ts), st, ln) matches AsmOutcome::Done((s2, _)) && s2 == (AsmState {
            format: st.format,
            division: st.division,
            track_started: true,
            current: events_canon(ts.last()),
            tracks: tracks_canon(ts.drop_last()),
        }),
        all_lines(tracks_lines(ts)),
        concat_lines(tracks_lines(ts)) == tracks_text(ts),
    decreases ts.len(),
{
    let p = ts.drop_last();
    let t = ts.last();
    assert(events_wf(ts[ts.len() - 1]) && all_readable(ts[ts.len() - 1]));
    assert(tracks_ok(p)) by {
        assert forall|i: int| 0 <= i < p.len() implies events_wf(#[trigger] p[i]) && all_readable(p[i]) by {
            assert(p[i] == ts[i]);
        }
    }
    lemma_run_append(tracks_lines(p), track_lines(t), st, ln);
    lemma_concat_lines_append(tracks_lines(p), track_lines(t));
    if p.len() == 0 {
        assert(tracks_lines(p) == Seq::<Seq<char>>::empty());
        assert(tracks_lines(p) + track_lines(t) =~= track_lines(t));
        assert(asm_run(Seq::<Seq<char>>::empty(), st, ln) == AsmOutcome::Done((st, ln)));
        lemma_track_run(t, st, ln);
        assert(tracks_canon(p) =~= Seq::<Seq<EventModel>>::empty());
        assert(concat_lines(Seq::<Seq<char>>::empty()) == Seq::<char>::empty());
        assert(tracks_text(p) == Seq::<char>::empty());
        assert(tracks_text(ts) =~= concat_lines(tracks_lines(ts)));
    } else {
        lemma_tracks_run(p, st, ln);
        let (s1, l1) = asm_run(tracks_lines(p), st, ln)->Done_0;
        lemma_track_run(t, s1, l1);
        assert(tracks_canon(p) =~= tracks_canon(p.drop_last()).push(events_canon(p.last())));
        assert(tracks_text(ts) =~= concat_lines(tracks_lines(ts)));
    }
    let a = tracks_lines(p);
    let b = track_lines(t);
    assert forall|i: int| 0 <= i < a.len() + b.len() implies #[trigger] is_line((a + b)[i]) by {
        if i < a.len() {
            assert(is_line(a[i]));
        } else {
            assert(is_line(b[i - a.len()]));
        }
    }
}


/// The two header lines.
pub open spec fn header_lines(h: FileHeader) -> Seq<Seq<char>> {
    seq![
        line_of(seq!["fmt"@, dec(h.format.spec_code() as nat)]),
        line_of(seq!["div"@, dec_signed(h.division as int)]),
    ]
}

/// The state after the header lines.
pub open spec fn header_state(h: FileHeader) -> AsmState {
    AsmState {
        format: Some(SmfFormat::spec_from_code(h.format.spec_code())),
        division: Some(h.division),
        track_started: false,
        current: seq![],
        tracks: seq![],
    }
}

/// The state after the "fmt" line.
pub open spec fn format_state(h: FileHeader) -> AsmState {
    AsmState {
        format: Some(SmfFormat::spec_from_code(h.format.spec_code())),
        division: None,
        track_started: false,
        current: seq![],
        tracks: seq![],
    }
}

/// Reading a "fmt" line before the header sets the format.
proof fn lemma_step_fmt(st: AsmState, folded: Seq<char>, ln: usize, n: u64)
    requires
        (st.format is None),
        folded.len() > 0,
        split_spaces(folded)[0] == "fmt"@,
        split_spaces(folded).len() == 2,
        parse_bounded_spec(split_spaces(folded)[1], ln, 0xFFFF) == Ok::<u64, ErrorModel>(n),
    ensures
        step_folded(st, folded, ln) == AsmOutcome::Done(AsmState {
            format: Some(SmfFormat::spec_from_code(n as u16)),
            division: st.division,
            track_started: st.track_started,
            current: st.current,
            tracks: st.tracks,
        }),
{
}

/// Reading a "div" line after the format sets the division.
proof fn lemma_step_div(st: AsmState, folded: Seq<char>, ln: usize, d: i16)
    requires
        (st.format is Some),
        (st.division is None),
        folded.len() > 0,
        split_spaces(folded)[0] == "div"@,
        split_spaces(folded).len() == 2,
        parse_i16_spec(split_spaces(folded)[1], ln) == Ok::<i16, ErrorModel>(d),
    ensures
        step_folded(st, folded, ln) == AsmOutcome::Done(AsmState {
            format: st.format,
            division: Some(d),
            track_started: st.track_started,
            current: st.current,
            tracks: st.tracks,
        }),
{
}

proof fn lemma_fmt_run(h: FileHeader)
    ensures
        asm_run(seq![header_lines(h)[0]], initial_state(), 0) == AsmOutcome::Done((format_state(h), 1usize)),
        is_line(header_lines(h)[0]),
        header_lines(h)[0] == "fmt "@ + dec(h.format.spec_code() as nat) + seq!['\n'],
{
    let code = h.format.spec_code();
    let fw = seq!["fmt"@, dec(code as nat)];
    reveal_strlit("fmt");
    reveal_strlit("fmt ");
    lemma_mnemonic("fmt"@);
    lemma_parse_dec(code as nat);
    assert(all_words(fw)) by {
        assert forall|i: int| 0 <= i < fw.len() implies #[trigger] is_word(fw[i]) by {}
    }
    lemma_line_of_words(fw);
    lemma_line2("fmt"@, dec(code as nat));
    lemma_run_one(fw, initial_state(), 0);
    assert(split_spaces(join(fw))[0] == "fmt"@);
    assert(split_spaces(join(fw)).len() == 2);
    assert(split_spaces(join(fw))[1] == dec(code as nat));
    lemma_step_fmt(initial_state(), join(fw), 1, code as u64);
    assert(initial_state().current == format_state(h).current);
    assert(header_lines(h)[0] == line_of(fw));
}

#[verifier::rlimit(40)]
proof fn lemma_div_run(h: FileHeader)
    ensures
        asm_run(seq![header_lines(h)[1]], format_state(h), 1) == AsmOutcome::Done((header_state(h), 2usize)),
        is_line(header_lines(h)[1]),
        header_lines(h)[1] == "div "@ + dec_signed(h.division as int) + seq!['\n'],
{
    let dw = seq!["div"@, dec_signed(h.division as int)];
    reveal_strlit("div");
    reveal_strlit("div ");
    lemma_mnemonic("div"@);
    lemma_parse_signed(h.division);
    assert(all_words(dw)) by {
        assert forall|i: int| 0 <= i < dw.len() implies #[trigger] is_word(dw[i]) by {}
    }
    lemma_line_of_words(dw);
    lemma_line2("div"@, dec_signed(h.division as int));
    lemma_run_one(dw, format_state(h), 1);
    assert(split_spaces(join(dw))[0] == "div"@);
    assert(split_spaces(join(dw)).len() == 2);
    assert(split_spaces(join(dw))[1] == dec_signed(h.division as int));
    assert(parse_i16_spec(dec_signed(h.division as int), 2) == Ok::<i16, ErrorModel>(h.division));
    lemma_step_div(format_state(h), join(dw), 2, h.division);
    assert(header_lines(h)[1] == line_of(dw));
}

proof fn lemma_header_run(h: FileHeader)
    ensures
        asm_run(header_lines(h), initial_state(), 0) == AsmOutcome::Done((header_state(h), 2usize)),
        all_lines(header_lines(h)),
        concat_lines(header_lines(h)) == "fmt "@ + dec(h.format.spec_code() as nat) + seq!['\n'] + "div "@
            + dec_signed(h.division as int) + seq!['\n'],
{
    lemma_fmt_run(h);
    lemma_div_run(h);
    let ls = header_lines(h);
    assert(ls =~= seq![ls[0]] + seq![ls[1]]);
    lemma_run_append(seq![ls[0]], seq![ls[1]], initial_state(), 0);
    assert(ls.drop_first() =~= seq![ls[1]]);
    assert(ls.drop_first().drop_first() =~= Seq::<Seq<char>>::empty());
    assert(concat_lines(ls.drop_first().drop_first()) == Seq::<char>::empty());
    assert(concat_lines(ls.drop_first()) =~= ls[1]);
    assert(concat_lines(ls) =~= ls[0] + ls[1]);
    assert(all_lines(ls));
}

/// The lines of the textual form of a file.
pub open spec fn file_lines(m: SmfModel) -> Seq<Seq<char>> {
    header_lines(m.header) + tracks_lines(m.tracks)
}

/// Reading back what `write_asm` writes gives the file in the form that decoding produces,
/// where the header counts the tracks, there is at least one track, and every event is one that
/// the textual form carries exactly (see `asm_readable`).
pub proof fn lemma_asm_roundtrip(m: SmfModel)
    requires
        m.wf(),
        m.header.track_count == m.tracks.len(),
        m.tracks.len() >= 1,
        forall|i: int, j: int|
            0 <= i < m.tracks.len() && 0 <= j < m.tracks[i].len() ==> #[trigger] asm_readable(m.tracks[i][j]),
    ensures
        read_asm_spec(asm_text(m)) == AsmOutcome::Done(m.canon()),
{
    let ts = m.tracks;
    assert(tracks_ok(ts)) by {
        assert forall|i: int| 0 <= i < ts.len() implies events_wf(#[trigger] ts[i]) && all_readable(ts[i]) by {
            assert(events_wf(ts[i]));
            assert forall|j: int| 0 <= j < ts[i].len() implies #[trigger] asm_readable(ts[i][j]) by {
                assert(asm_readable(m.tracks[i][j]));
            }
        }
    }
    lemma_header_run(m.header);
    let hs = header_state(m.header);
    lemma_tracks_run(ts, hs, 2);
    lemma_run_append(header_lines(m.header), tracks_lines(ts), initial_state(), 0);
    let ls = file_lines(m);
    lemma_concat_lines_append(header_lines(m.header), tracks_lines(ts));
    assert(concat_lines(ls) =~= asm_text(m));
    assert(all_lines(ls)) by {
        let a = header_lines(m.header);
        let b = tracks_lines(ts);
        assert forall|i: int| 0 <= i < a.len() + b.len() implies #[trigger] is_line((a + b)[i]) by {
            if i < a.len() {
                assert(is_line(a[i]));
            } else {
                assert(is_line(b[i - a.len()]));
            }
        }
    }
    lemma_text_lines_concat(ls);
    let (st, ln) = asm_run(ls, initial_state(), 0)->Done_0;
    assert(st.tracks.push(st.current) =~= tracks_canon(ts)) by {
        assert(ts =~= ts.drop_last().push(ts.last()));
    }
    assert(m.canon().tracks =~= tracks_canon(ts));
}


// ---------------------------------------------------------------------------------------------
// Line endings
// ---------------------------------------------------------------------------------------------

/// The text with every "\n" written as "\r\n".
pub open spec fn crlf(t: Seq<char>) -> Seq<char>
    decreases t.len(),
{
    if t.len() == 0 {
        seq![]
    } else if t[0] == '\n' {
        seq!['\r', '\n'] + crlf(t.drop_first())
    } else {
        seq![t[0]] + crlf(t.drop_first())
    }
}

/// A newline occurs at most as the last character.
pub open spec fn newline_last(l: Seq<char>) -> bool {
    forall|i: int| 0 <= i < l.len() - 1 ==> #[trigger] l[i] != '\n'
}

proof fn lemma_crlf_append(a: Seq<char>, b: Seq<char>)
    ensures
        crlf(a + b) == crlf(a) + crlf(b),
    decreases a.len(),
{
    if a.len() == 0 {
        assert(a + b =~= b);
        assert(crlf(a) + crlf(b) =~= crlf(b));
    } else {
        lemma_crlf_append(a.drop_first(), b);
        assert((a + b)[0] == a[0]);
        assert((a + b).drop_first() =~= a.drop_first() + b);
        assert(crlf(a + b) =~= crlf(a) + crlf(b));
    }
}

proof fn lemma_crlf_plain(a: Seq<char>)
    requires
        forall|i: int| 0 <= i < a.len() ==> #[trigger] a[i] != '\n',
    ensures
        crlf(a) == a,
    decreases a.len(),
{
    if a.len() > 0 {
        let d = a.drop_first();
        assert forall|i: int| 0 <= i < d.len() implies #[trigger] d[i] != '\n' by {
            assert(d[i] == a[i + 1]);
        }
        lemma_crlf_plain(d);
        assert(a[0] != '\n');
        assert(crlf(a) =~= a);
    }
}

proof fn lemma_crlf_newline()
    ensures
        crlf(seq!['\n']) == seq!['\r', '\n'],
{
    let nl = seq!['\n'];
    assert(nl[0] == '\n');
    assert(nl.drop_first() =~= Seq::<char>::empty());
    assert(crlf(nl.drop_first()) == Seq::<char>::empty());
    assert(crlf(nl) =~= seq!['\r', '\n'] + Seq::<char>::empty());
}

/// Splitting the text with "\r\n" line endings gives its lines, each with "\r\n".
proof fn lemma_text_lines_crlf(t: Seq<char>)
    ensures
        text_lines(crlf(t)) == text_lines(t).map_values(|l: Seq<char>| crlf(l)),
        forall|i: int| 0 <= i < text_lines(t).len() ==> #[trigger] newline_last(text_lines(t)[i]),
    decreases t.len(),
{
    crate::midi::rw_asm::lemma_find_char_bound(t, '\n');
    let k = find_char(t, '\n') as int;
    if t.len() == 0 {
        assert(crlf(t) =~= Seq::<char>::empty());
        assert(text_lines(t).map_values(|l: Seq<char>| crlf(l)) =~= Seq::<Seq<char>>::empty());
    } else if k == t.len() {
        lemma_crlf_plain(t);
        assert(line_len(t) == t.len());
        assert(t.take(t.len() as int) =~= t);
        assert(t.skip(t.len() as int) =~= Seq::<char>::empty());
        assert(text_lines(Seq::<char>::empty()) == Seq::<Seq<char>>::empty());
        assert(text_lines(t) =~= seq![t]);
        assert(text_lines(t).map_values(|l: Seq<char>| crlf(l)) =~= seq![t]);
        assert(newline_last(text_lines(t)[0]));
    } else {
        let l = t.take(k + 1);
        let r = t.skip(k + 1);
        assert(t =~= l + r);
        assert(is_line(l)) by {
            assert forall|i: int| 0 <= i < l.len() - 1 implies #[trigger] l[i] != '\n' by {
                assert(l[i] == t[i]);
            }
        }
        lemma_lines_append(l, r);
        lemma_text_lines_crlf(r);
        let c = t.take(k);
        assert forall|i: int| 0 <= i < c.len() implies #[trigger] c[i] != '\n' by {
            assert(c[i] == t[i]);
        }
        lemma_crlf_plain(c);
        assert(l =~= c + seq!['\n']);
        lemma_crlf_append(c, seq!['\n']);
        lemma_crlf_newline();
        let cl = crlf(l);
        assert(cl =~= c + seq!['\r', '\n']);
        assert(is_line(cl)) by {
            assert forall|i: int| 0 <= i < cl.len() - 1 implies #[trigger] cl[i] != '\n' by {
                if i < c.len() {
                    assert(cl[i] == c[i]);
                }
            }
        }
        lemma_crlf_append(l, r);
        lemma_lines_append(cl, crlf(r));
        assert(text_lines(t).map_values(|x: Seq<char>| crlf(x))
            =~= seq![cl] + text_lines(r).map_values(|x: Seq<char>| crlf(x)));
        assert forall|i: int| 0 <= i < text_lines(t).len() implies #[trigger] newline_last(text_lines(t)[i]) by {
            if i > 0 {
                assert(text_lines(t)[i] == text_lines(r)[i - 1]);
            } else {
                assert(text_lines(t)[0] == l);
            }
        }
    }
}

/// Folding ignores trailing whitespace.
proof fn lemma_fold_trailing_ws(s: Seq<char>, w: Seq<char>, started: bool, pending: bool)
    requires
        forall|i: int| 0 <= i < w.len() ==> #[trigger] is_ws(w[i]),
    ensures
        fold_from(s + w, started, pending) == fold_from(s, started, pending),
    decreases s.len() + w.len(),
{
    if s.len() == 0 {
        assert(s + w =~= w);
        if w.len() > 0 {
            let d = w.drop_first();
            assert forall|i: int| 0 <= i < d.len() implies #[trigger] is_ws(d[i]) by {
                assert(d[i] == w[i + 1]);
            }
            assert(is_ws(w[0]));
            lemma_fold_trailing_ws(s, d, started, started);
            assert(s + d =~= d);
            assert(fold_from(s, started, started) == Seq::<char>::empty());
        }
    } else {
        assert((s + w)[0] == s[0]);
        assert((s + w).drop_first() =~= s.drop_first() + w);
        if is_ws(s[0]) {
            lemma_fold_trailing_ws(s.drop_first(), w, started, started);
        } else {
            lemma_fold_trailing_ws(s.drop_first(), w, true, false);
        }
    }
}

/// A line, with its newline written as "\r\n", folds to what it folds to with "\n".
proof fn lemma_line_crlf(l: Seq<char>)
    requires
        newline_last(l),
    ensures
        fold_ws(strip_comment(crlf(l))) == fold_ws(strip_comment(l)),
{
    if l.len() == 0 || l.last() != '\n' {
        assert forall|i: int| 0 <= i < l.len() implies #[trigger] l[i] != '\n' by {}
        lemma_crlf_plain(l);
    } else {
        let c = l.drop_last();
        assert forall|i: int| 0 <= i < c.len() implies #[trigger] c[i] != '\n' by {
            assert(c[i] == l[i]);
        }
        lemma_crlf_plain(c);
        assert(l =~= c + seq!['\n']);
        lemma_crlf_append(c, seq!['\n']);
        lemma_crlf_newline();
        let cl = crlf(l);
        assert(cl =~= c + seq!['\r', '\n']);
        crate::midi::rw_asm::lemma_find_char_bound(c, '#');
        let k = find_char(c, '#') as int;
        if k < c.len() {
            crate::midi::rw_asm::lemma_find_char_index(l, '#', k);
            crate::midi::rw_asm::lemma_find_char_index(cl, '#', k);
            assert(strip_comment(l) =~= c.take(k));
            assert(strip_comment(cl) =~= c.take(k));
        } else {
            crate::midi::rw_asm::lemma_find_char_index(l, '#', l.len() as int);
            crate::midi::rw_asm::lemma_find_char_index(cl, '#', cl.len() as int);
            assert(strip_comment(l) =~= l);
            assert(strip_comment(cl) =~= cl);
            assert(is_ws('\r') && is_ws('\n'));
            let w1 = seq!['\n'];
            let w2 = seq!['\r', '\n'];
            assert forall|i: int| 0 <= i < w1.len() implies #[trigger] is_ws(w1[i]) by {}
            assert forall|i: int| 0 <= i < w2.len() implies #[trigger] is_ws(w2[i]) by {}
            lemma_fold_trailing_ws(c, w1, false, false);
            lemma_fold_trailing_ws(c, w2, false, false);
        }
    }
}

proof fn lemma_run_crlf(ls: Seq<Seq<char>>, st: AsmState, ln: usize)
    requires
        forall|i: int| 0 <= i < ls.len() ==> #[trigger] newline_last(ls[i]),
    ensures
        asm_run(ls.map_values(|l: Seq<char>| crlf(l)), st, ln) == asm_run(ls, st, ln),
    decreases ls.len(),
{
    let cs = ls.map_values(|l: Seq<char>| crlf(l));
    if ls.len() > 0 {
        assert(newline_last(ls[0]));
        lemma_line_crlf(ls[0]);
        assert(cs[0] == crlf(ls[0]));
        let d = ls.drop_first();
        assert forall|i: int| 0 <= i < d.len() implies #[trigger] newline_last(d[i]) by {
            assert(d[i] == ls[i + 1]);
        }
        assert(cs.drop_first() =~= d.map_values(|l: Seq<char>| crlf(l)));
        match step_folded(st, fold_ws(strip_comment(ls[0])), (ln + 1) as usize) {
            AsmOutcome::Done(s2) => lemma_run_crlf(d, s2, (ln + 1) as usize),
            _ => {},
        }
    } else {
        assert(cs =~= ls);
    }
}

/// The reader reads a text with "\r\n" line endings as it reads the text with "\n" ones: the
/// carriage return is whitespace and is folded away.
pub proof fn lemma_read_asm_crlf(t: Seq<char>)
    ensures
        read_asm_spec(crlf(t)) == read_asm_spec(t),
{
    lemma_text_lines_crlf(t);
    lemma_run_crlf(text_lines(t), initial_state(), 0);
}


// ---------------------------------------------------------------------------------------------
// Lines that the reader reads otherwise than the writer writes them
// ---------------------------------------------------------------------------------------------

/// What the reader makes of the lines for channel pressure, song select and raw SysEx: "ch C cpr
/// V X" is channel pressure V on channel C (a fourth argument is expected and not read), "ssl V
/// X" is song select V (a second argument is expected and not read), and "rsx" with bytes in
/// hexadecimal is a raw SysEx event with those bytes.
pub proof fn lemma_read_cpr_ssl_rsx(c: nat, v: nat, x: Seq<char>, data: Seq<u8>, ln: usize)
    requires
        c < 16,
        v < 128,
    ensures
        ({
            &&& event_data_spec(seq!["ch"@, dec(c), "cpr"@, dec(v), x], ln) matches Ok(EventDataModel::Midi(m))
            &&& m.channel@ == c
            &&& m.message matches Message::ChannelPressure(p)
            &&& p.value@ == v
        }),
        ({
            &&& event_data_spec(seq!["ssl"@, dec(v), x], ln) matches Ok(EventDataModel::System(s))
            &&& s matches SystemEventData::SongSelect(y)
            &&& y.song@ == v
        }),
        event_data_spec(seq!["rsx"@] + hex_words(data), ln) == Ok::<EventDataModel, ErrorModel>(EventDataModel::RawSysEx(data)),
{
    lemma_read_cpr(c, v, x, ln);
    lemma_read_ssl(v, x, ln);
    lemma_read_rsx(data, ln);
}

proof fn lemma_read_cpr(c: nat, v: nat, x: Seq<char>, ln: usize)
    requires
        c < 16,
        v < 128,
    ensures
        event_data_spec(seq!["ch"@, dec(c), "cpr"@, dec(v), x], ln) == Ok::<EventDataModel, ErrorModel>(
            EventDataModel::Midi(MidiEventData {
                channel: U4(c as u8),
                message: Message::ChannelPressure(crate::midi::model::ChannelValueMessage { value: U7(v as u8) }),
            }),
        ),
{
    let m = seq!["ch"@, dec(c), "cpr"@, dec(v), x];
    lemma_parse_dec(c);
    lemma_parse_dec(v);
    reveal_strlit("nof");
    reveal_strlit("non");
    reveal_strlit("kpr");
    reveal_strlit("cch");
    reveal_strlit("pch");
    reveal_strlit("cpr");
    assert("cpr"@[0] != "nof"@[0]);
    assert("cpr"@[0] != "non"@[0]);
    assert("cpr"@[0] != "kpr"@[0]);
    assert("cpr"@[1] != "cch"@[1]);
    assert("cpr"@[0] != "pch"@[0]);
    assert(m.len() == 5);
    assert(m[0] == "ch"@ && m[1] == dec(c) && m[2] == "cpr"@ && m[3] == dec(v));
}

proof fn lemma_read_ssl(v: nat, x: Seq<char>, ln: usize)
    requires
        v < 128,
    ensures
        event_data_spec(seq!["ssl"@, dec(v), x], ln) == Ok::<EventDataModel, ErrorModel>(
            EventDataModel::System(SystemEventData::SongSelect(crate::midi::model::SongSelectData { song: U7(v as u8) })),
        ),
{
    let m = seq!["ssl"@, dec(v), x];
    lemma_parse_dec(v);
    reveal_strlit("ssl");
    reveal_strlit("trk");
    reveal_strlit("ch");
    reveal_strlit("tcd");
    reveal_strlit("sps");
    assert("ssl"@.len() != "ch"@.len());
    assert("ssl"@[0] != "tcd"@[0]);
    assert("ssl"@[1] != "sps"@[1]);
    assert("ssl"@[0] != "trk"@[0]);
    assert(m.len() == 3);
    assert(m[0] == "ssl"@ && m[1] == dec(v));
}

proof fn lemma_read_rsx(data: Seq<u8>, ln: usize)
    ensures
        event_data_spec(seq!["rsx"@] + hex_words(data), ln) == Ok::<EventDataModel, ErrorModel>(EventDataModel::RawSysEx(data)),
{
    let m = seq!["rsx"@] + hex_words(data);
    lemma_parse_bytes(data, ln);
    reveal_strlit("rsx");
    reveal_strlit("trk");
    reveal_strlit("ch");
    reveal_strlit("tcd");
    reveal_strlit("sps");
    reveal_strlit("ssl");
    reveal_strlit("trq");
    reveal_strlit("tcl");
    reveal_strlit("uf9");
    reveal_strlit("srt");
    reveal_strlit("cnt");
    reveal_strlit("stp");
    reveal_strlit("ufd");
    reveal_strlit("asg");
    reveal_strlit("rst");
    reveal_strlit("syx");
    assert("rsx"@.len() != "ch"@.len());
    assert("rsx"@[0] != "tcd"@[0]);
    assert("rsx"@[0] != "sps"@[0]);
    assert("rsx"@[0] != "ssl"@[0]);
    assert("rsx"@[0] != "trq"@[0]);
    assert("rsx"@[0] != "tcl"@[0]);
    assert("rsx"@[0] != "uf9"@[0]);
    assert("rsx"@[0] != "srt"@[0]);
    assert("rsx"@[0] != "cnt"@[0]);
    assert("rsx"@[0] != "stp"@[0]);
    assert("rsx"@[0] != "ufd"@[0]);
    assert("rsx"@[0] != "asg"@[0]);
    assert("rsx"@[2] != "rst"@[2]);
    assert("rsx"@[0] != "syx"@[0]);
    assert("rsx"@[0] != "trk"@[0]);
    assert(m[0] == "rsx"@);
    assert(m.drop_first() =~= hex_words(data));
}


/// A comment runs from '#' to the end of its line: whatever follows the first '#' is dropped.
pub proof fn lemma_comment_dropped(l: Seq<char>, comment: Seq<char>)
    requires
        forall|i: int| 0 <= i < l.len() ==> #[trigger] l[i] != '#',
    ensures
        strip_comment(l + seq!['#'] + comment) == l,
        strip_comment(l) == l,
{
    let t = l + seq!['#'] + comment;
    assert forall|i: int| 0 <= i < l.len() implies #[trigger] t[i] != '#' by {
        assert(t[i] == l[i]);
    }
    assert(t[l.len() as int] == '#');
    crate::midi::rw_asm::lemma_find_char_index(t, '#', l.len() as int);
    crate::midi::rw_asm::lemma_find_char_index(l, '#', l.len() as int);
    assert(t.take(l.len() as int) =~= l);
    assert(l.take(l.len() as int) =~= l);
}

} // verus!
