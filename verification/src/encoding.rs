//! Canonical text form of the library's values.
//!
//! Every value that is hashed or sent over the wire is first laid out in a
//! self-describing text form built from two primitives: an unsigned number
//! (its decimal digits followed by `:`) and a string (its length as a
//! number, then its characters verbatim).  Readers are strict: they accept
//! exactly what the writers produce and report anything else as a failure.

use vstd::prelude::*;

verus! {

use vstd::string::StrSliceExecFns;
use vstd::string::StringExecFns;

broadcast use vstd::string::group_string_axioms;

/// The character standing for one decimal digit.
pub open spec fn digit_char(d: int) -> char {
    if d == 0 {
        '0'
    } else if d == 1 {
        '1'
    } else if d == 2 {
        '2'
    } else if d == 3 {
        '3'
    } else if d == 4 {
        '4'
    } else if d == 5 {
        '5'
    } else if d == 6 {
        '6'
    } else if d == 7 {
        '7'
    } else if d == 8 {
        '8'
    } else {
        '9'
    }
}

/// The decimal value of a digit character, and -1 for any other character.
pub open spec fn char_digit(c: char) -> int {
    if c == '0' {
        0
    } else if c == '1' {
        1
    } else if c == '2' {
        2
    } else if c == '3' {
        3
    } else if c == '4' {
        4
    } else if c == '5' {
        5
    } else if c == '6' {
        6
    } else if c == '7' {
        7
    } else if c == '8' {
        8
    } else if c == '9' {
        9
    } else {
        -1
    }
}

pub open spec fn is_digit(c: char) -> bool {
    char_digit(c) >= 0
}

/// The decimal digits of `n`, most significant first.
pub open spec fn dec_digits(n: int) -> Seq<char>
    decreases n,
{
    if n < 10 {
        seq![digit_char(n)]
    } else {
        dec_digits(n / 10).push(digit_char(n % 10))
    }
}

/// A number on the wire: its decimal digits closed by a colon.
pub open spec fn enc_u64(n: int) -> Seq<char> {
    dec_digits(n) + seq![':']
}

/// A string on the wire: its character count, then the characters verbatim.
pub open spec fn enc_str(s: Seq<char>) -> Seq<char> {
    enc_u64(s.len() as int) + s
}

/// The value of a digit sequence read left to right into an accumulator.
pub open spec fn fold_val(ds: Seq<char>, acc: int) -> int
    decreases ds.len(),
{
    if ds.len() == 0 {
        acc
    } else {
        fold_val(ds.subrange(1, ds.len() as int), acc * 10 + char_digit(ds[0]))
    }
}

/// What the strict number reader yields on a digit run already begun:
/// the accumulated value once the closing colon is reached, or nothing
/// when the run ends any other way or the value leaves `u64`.
pub open spec fn sdec_u64_rec(s: Seq<char>, pos: int, acc: int) -> Option<(int, int)>
    decreases s.len() - pos,
{
    if pos < 0 || pos >= s.len() {
        None
    } else if is_digit(s[pos]) {
        let a2 = acc * 10 + char_digit(s[pos]);
        if a2 > u64::MAX as int {
            None
        } else {
            sdec_u64_rec(s, pos + 1, a2)
        }
    } else if s[pos] == ':' {
        Some((acc, pos + 1))
    } else {
        None
    }
}

/// What the strict number reader yields at `pos`: the value and the
/// position just past the closing colon.
pub open spec fn sdec_u64(s: Seq<char>, pos: int) -> Option<(int, int)> {
    if 0 <= pos && pos < s.len() && is_digit(s[pos]) {
        sdec_u64_rec(s, pos, 0)
    } else {
        None
    }
}

/// What the strict string reader yields at `pos`.
pub open spec fn sdec_str(s: Seq<char>, pos: int) -> Option<(Seq<char>, int)> {
    match sdec_u64(s, pos) {
        Option::None => Option::None,
        Option::Some((n, p)) => if p + n <= s.len() {
            Option::Some((s.subrange(p, p + n), p + n))
        } else {
            Option::None
        },
    }
}

/// The byte values of a byte string, one number after another.
pub open spec fn enc_byte_run(b: Seq<u8>) -> Seq<char>
    decreases b.len(),
{
    if b.len() == 0 {
        Seq::empty()
    } else {
        enc_u64(b[0] as int) + enc_byte_run(b.subrange(1, b.len() as int))
    }
}

/// A byte string on the wire: its length, then its byte values.
pub open spec fn enc_bytes(b: Seq<u8>) -> Seq<char> {
    enc_u64(b.len() as int) + enc_byte_run(b)
}

/// A list of byte strings, one after another.
pub open spec fn enc_bl_run(l: Seq<Seq<u8>>) -> Seq<char>
    decreases l.len(),
{
    if l.len() == 0 {
        Seq::empty()
    } else {
        enc_bytes(l[0]) + enc_bl_run(l.subrange(1, l.len() as int))
    }
}

/// A list of byte strings on the wire: its length, then its entries.
pub open spec fn enc_byte_lists(l: Seq<Seq<u8>>) -> Seq<char> {
    enc_u64(l.len() as int) + enc_bl_run(l)
}

/// What the strict reader yields for `n` byte values in a row.
pub open spec fn sdec_byte_run(s: Seq<char>, pos: int, n: int) -> Option<(Seq<u8>, int)>
    decreases n,
{
    if n <= 0 {
        Some((Seq::empty(), pos))
    } else {
        match sdec_u64(s, pos) {
            Option::None => Option::None,
            Option::Some((v, p)) => if v <= 255 {
                match sdec_byte_run(s, p, n - 1) {
                    Option::None => Option::None,
                    Option::Some((rest, p2)) => Option::Some((seq![v as u8] + rest, p2)),
                }
            } else {
                Option::None
            },
        }
    }
}

/// What the strict byte-string reader yields at `pos`.
pub open spec fn sdec_bytes(s: Seq<char>, pos: int) -> Option<(Seq<u8>, int)> {
    match sdec_u64(s, pos) {
        Option::None => Option::None,
        Option::Some((n, p)) => sdec_byte_run(s, p, n),
    }
}

/// What the strict reader yields for `n` byte strings in a row.
pub open spec fn sdec_bl_run(s: Seq<char>, pos: int, n: int) -> Option<(Seq<Seq<u8>>, int)>
    decreases n,
{
    if n <= 0 {
        Some((Seq::empty(), pos))
    } else {
        match sdec_bytes(s, pos) {
            Option::None => Option::None,
            Option::Some((v, p)) => match sdec_bl_run(s, p, n - 1) {
                Option::None => Option::None,
                Option::Some((rest, p2)) => Option::Some((seq![v] + rest, p2)),
            },
        }
    }
}

/// What the strict list-of-byte-strings reader yields at `pos`.
pub open spec fn sdec_byte_lists(s: Seq<char>, pos: int) -> Option<(Seq<Seq<u8>>, int)> {
    match sdec_u64(s, pos) {
        Option::None => Option::None,
        Option::Some((n, p)) => sdec_bl_run(s, p, n),
    }
}

/// `t` lies verbatim in `s` at position `pos`.
pub open spec fn seg(s: Seq<char>, pos: int, t: Seq<char>) -> bool {
    &&& 0 <= pos
    &&& pos + t.len() <= s.len()
    &&& s.subrange(pos, pos + t.len() as int) == t
}

pub proof fn lemma_seg_split(s: Seq<char>, pos: int, a: Seq<char>, b: Seq<char>)
    requires
        seg(s, pos, a + b),
    ensures
        seg(s, pos, a),
        seg(s, pos + a.len(), b),
{
    assert forall|i: int| 0 <= i < (a + b).len() implies s[pos + i] == (a + b)[i] by {
        assert((a + b)[i] == s.subrange(pos, pos + (a + b).len() as int)[i]);
    }
    assert(s.subrange(pos, pos + a.len() as int) =~= a);
    assert forall|k: int|
        0 <= k < b.len() implies s.subrange(pos + a.len(), pos + a.len() + b.len() as int)[k]
        == b[k] by {
        let i = a.len() + k;
        assert(s[pos + i] == (a + b)[i]);
        assert((a + b)[i] == b[k]);
    }
    assert(s.subrange(pos + a.len(), pos + a.len() + b.len() as int) =~= b);
}

pub proof fn lemma_fold_val_lower(ds: Seq<char>, acc: int)
    requires
        acc >= 0,
        forall|i: int| 0 <= i < ds.len() ==> is_digit(#[trigger] ds[i]),
    ensures
        fold_val(ds, acc) >= acc,
    decreases ds.len(),
{
    if ds.len() > 0 {
        let tail = ds.subrange(1, ds.len() as int);
        assert(forall|i: int| 0 <= i < tail.len() ==> is_digit(#[trigger] tail[i]));
        lemma_fold_val_lower(tail, acc * 10 + char_digit(ds[0]));
    }
}

pub proof fn lemma_fold_val_snoc(ds: Seq<char>, d: char, acc: int)
    ensures
        fold_val(ds.push(d), acc) == fold_val(ds, acc) * 10 + char_digit(d),
    decreases ds.len(),
{
    if ds.len() == 0 {
        assert(ds.push(d).subrange(1, 1) =~= Seq::<char>::empty());
        assert(fold_val(ds.push(d), acc) == fold_val(
            Seq::<char>::empty(),
            acc * 10 + char_digit(d),
        ));
        assert(fold_val(Seq::<char>::empty(), acc * 10 + char_digit(d)) == acc * 10 + char_digit(
            d,
        ));
        assert(fold_val(ds, acc) == acc);
    } else {
        let tail = ds.subrange(1, ds.len() as int);
        assert(ds.push(d).subrange(1, ds.len() + 1 as int) =~= tail.push(d));
        lemma_fold_val_snoc(tail, d, acc * 10 + char_digit(ds[0]));
        assert(fold_val(ds.push(d), acc) == fold_val(tail.push(d), acc * 10 + char_digit(ds[0])));
        assert(fold_val(ds, acc) == fold_val(tail, acc * 10 + char_digit(ds[0])));
    }
}

pub proof fn lemma_dec_digits_are_digits(n: int)
    requires
        n >= 0,
    ensures
        forall|i: int| 0 <= i < dec_digits(n).len() ==> is_digit(#[trigger] dec_digits(n)[i]),
        dec_digits(n).len() >= 1,
    decreases n,
{
    if n < 10 {
        assert(is_digit(dec_digits(n)[0]));
    } else {
        lemma_dec_digits_are_digits(n / 10);
        assert forall|i: int| 0 <= i < dec_digits(n).len() implies is_digit(
            #[trigger] dec_digits(n)[i],
        ) by {
            if i < dec_digits(n / 10).len() {
                assert(dec_digits(n)[i] == dec_digits(n / 10)[i]);
            } else {
                assert(dec_digits(n)[i] == digit_char(n % 10));
            }
        }
    }
}

pub proof fn lemma_fold_dec_digits(n: int)
    requires
        n >= 0,
    ensures
        fold_val(dec_digits(n), 0) == n,
    decreases n,
{
    if n < 10 {
        let ds = dec_digits(n);
        assert(ds.subrange(1, 1) =~= Seq::<char>::empty());
        assert(fold_val(ds, 0) == fold_val(ds.subrange(1, 1), char_digit(digit_char(n))));
    } else {
        lemma_fold_dec_digits(n / 10);
        lemma_fold_val_snoc(dec_digits(n / 10), digit_char(n % 10), 0);
    }
}

proof fn lemma_sdec_rec(s: Seq<char>, pos: int, ds: Seq<char>, acc: int)
    requires
        0 <= pos,
        0 <= acc,
        forall|i: int| 0 <= i < ds.len() ==> is_digit(#[trigger] ds[i]),
        pos + ds.len() + 1 <= s.len(),
        forall|i: int| 0 <= i < ds.len() ==> s[pos + i] == #[trigger] ds[i],
        s[pos + ds.len()] == ':',
        fold_val(ds, acc) <= u64::MAX as int,
    ensures
        sdec_u64_rec(s, pos, acc) == Some((fold_val(ds, acc), pos + ds.len() + 1)),
    decreases ds.len(),
{
    if ds.len() == 0 {
        assert(s[pos] == ':');
    } else {
        let d = ds[0];
        let a2 = acc * 10 + char_digit(d);
        let tail = ds.subrange(1, ds.len() as int);
        assert(forall|i: int| 0 <= i < tail.len() ==> is_digit(#[trigger] tail[i]));
        assert(fold_val(ds, acc) == fold_val(tail, a2));
        lemma_fold_val_lower(tail, a2);
        assert forall|i: int| 0 <= i < tail.len() implies s[pos + 1 + i] == #[trigger] tail[i] by {
            assert(ds[i + 1] == tail[i]);
            assert(s[pos + (i + 1)] == ds[i + 1]);
        }
        assert(s[pos + 1 + tail.len()] == ':');
        lemma_sdec_rec(s, pos + 1, tail, a2);
    }
}

/// The number reader undoes the number writer, whatever follows it.
pub proof fn lemma_sdec_enc_u64(s: Seq<char>, pos: int, n: int)
    requires
        0 <= n <= u64::MAX as int,
        seg(s, pos, enc_u64(n)),
    ensures
        sdec_u64(s, pos) == Some((n, pos + enc_u64(n).len() as int)),
{
    let ds = dec_digits(n);
    lemma_dec_digits_are_digits(n);
    lemma_fold_dec_digits(n);
    assert forall|i: int| 0 <= i < enc_u64(n).len() implies s[pos + i] == enc_u64(n)[i] by {
        assert(enc_u64(n)[i] == s.subrange(pos, pos + enc_u64(n).len() as int)[i]);
    }
    assert forall|i: int| 0 <= i < ds.len() implies s[pos + i] == #[trigger] ds[i] by {
        assert(s[pos + i] == enc_u64(n)[i]);
        assert(enc_u64(n)[i] == ds[i]);
    }
    assert(s[pos + ds.len()] == ':') by {
        assert(s[pos + ds.len() as int] == enc_u64(n)[ds.len() as int]);
    }
    lemma_sdec_rec(s, pos, ds, 0);
    assert(is_digit(s[pos]));
}

/// The string reader undoes the string writer, whatever follows it.
pub proof fn lemma_sdec_enc_str(s: Seq<char>, pos: int, v: Seq<char>)
    requires
        v.len() <= u64::MAX as int,
        seg(s, pos, enc_str(v)),
    ensures
        sdec_str(s, pos) == Some((v, pos + enc_str(v).len() as int)),
{
    lemma_seg_split(s, pos, enc_u64(v.len() as int), v);
    lemma_sdec_enc_u64(s, pos, v.len() as int);
    let p = pos + enc_u64(v.len() as int).len();
    assert(s.subrange(p, p + v.len() as int) == v);
}

/// One decimal digit as text.
fn digit_str(d: u64) -> (r: &'static str)
    requires
        d < 10,
    ensures
        r@ =~= seq![digit_char(d as int)],
{
    proof {
        reveal_strlit("0");
        reveal_strlit("1");
        reveal_strlit("2");
        reveal_strlit("3");
        reveal_strlit("4");
        reveal_strlit("5");
        reveal_strlit("6");
        reveal_strlit("7");
        reveal_strlit("8");
        reveal_strlit("9");
    }
    if d == 0 {
        "0"
    } else if d == 1 {
        "1"
    } else if d == 2 {
        "2"
    } else if d == 3 {
        "3"
    } else if d == 4 {
        "4"
    } else if d == 5 {
        "5"
    } else if d == 6 {
        "6"
    } else if d == 7 {
        "7"
    } else if d == 8 {
        "8"
    } else {
        "9"
    }
}

/// The digit characters of `rev` read back to front.
spec fn le_rev(rev: Seq<u64>) -> Seq<char> {
    Seq::new(rev.len(), |i: int| digit_char(rev[rev.len() - 1 - i] as int))
}

/// Append a number in its wire form.
pub fn write_u64(out: &mut String, n: u64)
    ensures
        final(out)@ == old(out)@ + enc_u64(n as int),
{
    let mut rev: Vec<u64> = Vec::new();
    let mut cur: u64 = n;
    loop
        invariant_except_break
            rev@.len() == 0 ==> cur == n,
            rev@.len() > 0 ==> cur > 0 && dec_digits(n as int) == dec_digits(cur as int) + le_rev(
                rev@,
            ),
        invariant
            forall|j: int| 0 <= j < rev@.len() ==> rev@[j] < 10,
        ensures
            dec_digits(n as int) == le_rev(rev@),
        decreases cur,
    {
        let ghost prev = cur;
        let ghost prev_rev = rev@;
        rev.push(cur % 10);
        cur = cur / 10;
        proof {
            assert(le_rev(rev@) =~= seq![digit_char((prev % 10) as int)] + le_rev(prev_rev));
        }
        if cur == 0 {
            proof {
                if prev_rev.len() == 0 {
                    assert(dec_digits(n as int) =~= le_rev(rev@));
                } else {
                    assert(dec_digits(prev as int) =~= seq![digit_char((prev % 10) as int)]);
                    assert(dec_digits(n as int) =~= le_rev(rev@));
                }
            }
            break ;
        }
        proof {
            if prev_rev.len() == 0 {
                assert(dec_digits(n as int) == dec_digits(prev as int));
            }
            assert(dec_digits(prev as int) =~= dec_digits(cur as int).push(
                digit_char((prev % 10) as int),
            ));
            assert(dec_digits(cur as int).push(digit_char((prev % 10) as int)) =~= dec_digits(
                cur as int,
            ) + seq![digit_char((prev % 10) as int)]);
            assert(dec_digits(n as int) =~= dec_digits(cur as int) + le_rev(rev@));
        }
    }
    let ghost target = le_rev(rev@);
    let ghost start = out@;
    let mut i: usize = 0;
    while i < rev.len()
        invariant
            i <= rev@.len(),
            target == le_rev(rev@),
            forall|j: int| 0 <= j < rev@.len() ==> rev@[j] < 10,
            out@ == start + target.subrange(0, i as int),
        decreases rev@.len() - i,
    {
        let d = rev[rev.len() - 1 - i];
        assert(d == rev@[rev@.len() - 1 - i as int]);
        assert(digit_char(d as int) == target[i as int]);
        out.append(digit_str(d));
        proof {
            assert(target.subrange(0, i + 1) =~= target.subrange(0, i as int).push(
                target[i as int],
            ));
        }
        i = i + 1;
    }
    proof {
        assert(target.subrange(0, target.len() as int) =~= target);
        reveal_strlit(":");
    }
    out.append(":");
    proof {
        assert(":"@ =~= seq![':']);
        assert(out@ =~= start + enc_u64(n as int));
    }
}

/// Append a string in its wire form.
pub fn write_str(out: &mut String, s: &str)
    ensures
        final(out)@ == old(out)@ + enc_str(s@),
{
    let len = s.unicode_len();
    write_u64(out, len as u64);
    out.append(s);
    assert(out@ =~= old(out)@ + enc_str(s@));
}

/// The decimal value of one digit character, and nothing for any other.
fn char_val(c: char) -> (r: Option<u64>)
    ensures
        match r {
            Some(d) => char_digit(c) == d as int && d < 10,
            None => char_digit(c) == -1,
        },
{
    if c == '0' {
        Some(0)
    } else if c == '1' {
        Some(1)
    } else if c == '2' {
        Some(2)
    } else if c == '3' {
        Some(3)
    } else if c == '4' {
        Some(4)
    } else if c == '5' {
        Some(5)
    } else if c == '6' {
        Some(6)
    } else if c == '7' {
        Some(7)
    } else if c == '8' {
        Some(8)
    } else if c == '9' {
        Some(9)
    } else {
        None
    }
}

/// Read a number in its wire form, strictly.
pub fn read_u64(s: &str, pos: usize) -> (r: Option<(u64, usize)>)
    ensures
        match r {
            None => sdec_u64(s@, pos as int) == None::<(int, int)>,
            Some((v, p)) => sdec_u64(s@, pos as int) == Some((v as int, p as int)) && p <= s@.len()
                && pos < p,
        },
{
    let slen = s.unicode_len();
    if pos >= slen {
        return None;
    }
    let first = char_val(s.get_char(pos));
    if first.is_none() {
        return None;
    }
    let mut i: usize = pos;
    let mut acc: u64 = 0;
    loop
        invariant
            pos <= i <= slen,
            pos < slen,
            slen == s@.len(),
            is_digit(s@[pos as int]),
            i > pos || acc == 0,
            sdec_u64_rec(s@, pos as int, 0) == sdec_u64_rec(s@, i as int, acc as int),
        decreases slen - i,
    {
        if i >= slen {
            return None;
        }
        let c = s.get_char(i);
        match char_val(c) {
            Some(d) => {
                if acc > 1844674407370955161u64 || (acc == 1844674407370955161u64 && d > 5) {
                    assert(acc * 10 + d > u64::MAX as int);
                    return None;
                }
                assert(acc * 10 + d <= u64::MAX as int);
                acc = acc * 10 + d;
                i = i + 1;
            },
            None => {
                if c == ':' {
                    assert(sdec_u64_rec(s@, i as int, acc as int) == Some(
                        (acc as int, i + 1 as int),
                    ));
                    return Some((acc, i + 1));
                }
                return None;
            },
        }
    }
}

pub proof fn lemma_enc_byte_run_snoc(b: Seq<u8>, x: u8)
    ensures
        enc_byte_run(b.push(x)) == enc_byte_run(b) + enc_u64(x as int),
    decreases b.len(),
{
    if b.len() == 0 {
        assert(b.push(x).subrange(1, 1) =~= Seq::<u8>::empty());
        assert(enc_byte_run(Seq::<u8>::empty()) == Seq::<char>::empty());
        assert(b =~= Seq::<u8>::empty());
        assert(enc_byte_run(b.push(x)) == enc_u64(x as int) + Seq::<char>::empty());
        assert(enc_byte_run(b.push(x)) =~= enc_byte_run(b) + enc_u64(x as int));
    } else {
        let tail = b.subrange(1, b.len() as int);
        let all = b.push(x);
        assert(all[0] == b[0]);
        assert(all.subrange(1, all.len() as int) =~= tail.push(x));
        lemma_enc_byte_run_snoc(tail, x);
        assert(enc_byte_run(all) == enc_u64(b[0] as int) + (enc_byte_run(tail) + enc_u64(
            x as int,
        )));
        assert(enc_u64(b[0] as int) + (enc_byte_run(tail) + enc_u64(x as int)) =~= (enc_u64(
            b[0] as int,
        ) + enc_byte_run(tail)) + enc_u64(x as int));
        assert(enc_byte_run(b) == enc_u64(b[0] as int) + enc_byte_run(tail));
    }
}

pub proof fn lemma_enc_bl_run_snoc(l: Seq<Seq<u8>>, x: Seq<u8>)
    ensures
        enc_bl_run(l.push(x)) == enc_bl_run(l) + enc_bytes(x),
    decreases l.len(),
{
    if l.len() == 0 {
        assert(l.push(x).subrange(1, 1) =~= Seq::<Seq<u8>>::empty());
        assert(enc_bl_run(Seq::<Seq<u8>>::empty()) == Seq::<char>::empty());
        assert(l =~= Seq::<Seq<u8>>::empty());
        assert(enc_bl_run(l.push(x)) == enc_bytes(x) + Seq::<char>::empty());
        assert(enc_bl_run(l.push(x)) =~= enc_bl_run(l) + enc_bytes(x));
    } else {
        let tail = l.subrange(1, l.len() as int);
        let all = l.push(x);
        assert(all[0] == l[0]);
        assert(all.subrange(1, all.len() as int) =~= tail.push(x));
        lemma_enc_bl_run_snoc(tail, x);
        assert(enc_bl_run(all) == enc_bytes(l[0]) + (enc_bl_run(tail) + enc_bytes(x)));
        assert(enc_bytes(l[0]) + (enc_bl_run(tail) + enc_bytes(x)) =~= (enc_bytes(l[0])
            + enc_bl_run(tail)) + enc_bytes(x));
        assert(enc_bl_run(l) == enc_bytes(l[0]) + enc_bl_run(tail));
    }
}

proof fn lemma_sdec_byte_run(s: Seq<char>, pos: int, b: Seq<u8>)
    requires
        seg(s, pos, enc_byte_run(b)),
    ensures
        sdec_byte_run(s, pos, b.len() as int) == Some((b, pos + enc_byte_run(b).len() as int)),
    decreases b.len(),
{
    if b.len() == 0 {
        assert(b =~= Seq::<u8>::empty());
    } else {
        let tail = b.subrange(1, b.len() as int);
        lemma_seg_split(s, pos, enc_u64(b[0] as int), enc_byte_run(tail));
        lemma_sdec_enc_u64(s, pos, b[0] as int);
        let p = pos + enc_u64(b[0] as int).len();
        lemma_sdec_byte_run(s, p, tail);
        assert(seq![b[0]] + tail =~= b);
    }
}

/// The byte-string reader undoes the byte-string writer.
pub proof fn lemma_sdec_enc_bytes(s: Seq<char>, pos: int, b: Seq<u8>)
    requires
        b.len() <= u64::MAX as int,
        seg(s, pos, enc_bytes(b)),
    ensures
        sdec_bytes(s, pos) == Some((b, pos + enc_bytes(b).len() as int)),
{
    lemma_seg_split(s, pos, enc_u64(b.len() as int), enc_byte_run(b));
    lemma_sdec_enc_u64(s, pos, b.len() as int);
    lemma_sdec_byte_run(s, pos + enc_u64(b.len() as int).len(), b);
}

proof fn lemma_sdec_bl_run(s: Seq<char>, pos: int, l: Seq<Seq<u8>>)
    requires
        forall|i: int| 0 <= i < l.len() ==> (#[trigger] l[i]).len() <= u64::MAX as int,
        seg(s, pos, enc_bl_run(l)),
    ensures
        sdec_bl_run(s, pos, l.len() as int) == Some((l, pos + enc_bl_run(l).len() as int)),
    decreases l.len(),
{
    if l.len() == 0 {
        assert(l =~= Seq::<Seq<u8>>::empty());
    } else {
        let tail = l.subrange(1, l.len() as int);
        lemma_seg_split(s, pos, enc_bytes(l[0]), enc_bl_run(tail));
        lemma_sdec_enc_bytes(s, pos, l[0]);
        let p = pos + enc_bytes(l[0]).len();
        assert(forall|i: int| 0 <= i < tail.len() ==> (#[trigger] tail[i]).len() <= u64::MAX as int);
        lemma_sdec_bl_run(s, p, tail);
        assert(seq![l[0]] + tail =~= l);
    }
}

/// The list reader undoes the list writer.
pub proof fn lemma_sdec_enc_byte_lists(s: Seq<char>, pos: int, l: Seq<Seq<u8>>)
    requires
        l.len() <= u64::MAX as int,
        forall|i: int| 0 <= i < l.len() ==> (#[trigger] l[i]).len() <= u64::MAX as int,
        seg(s, pos, enc_byte_lists(l)),
    ensures
        sdec_byte_lists(s, pos) == Some((l, pos + enc_byte_lists(l).len() as int)),
{
    lemma_seg_split(s, pos, enc_u64(l.len() as int), enc_bl_run(l));
    lemma_sdec_enc_u64(s, pos, l.len() as int);
    lemma_sdec_bl_run(s, pos + enc_u64(l.len() as int).len(), l);
}

/// Append a byte string in its wire form.
pub fn write_bytes(out: &mut String, b: &Vec<u8>)
    ensures
        final(out)@ == old(out)@ + enc_bytes(b@),
{
    write_u64(out, b.len() as u64);
    let ghost start = out@;
    let mut i: usize = 0;
    while i < b.len()
        invariant
            i <= b@.len(),
            out@ == start + enc_byte_run(b@.subrange(0, i as int)),
        decreases b@.len() - i,
    {
        write_u64(out, b[i] as u64);
        proof {
            assert(b@.subrange(0, i + 1 as int) =~= b@.subrange(0, i as int).push(b@[i as int]));
            lemma_enc_byte_run_snoc(b@.subrange(0, i as int), b@[i as int]);
            assert(out@ =~= start + enc_byte_run(b@.subrange(0, i + 1 as int)));
        }
        i = i + 1;
    }
    proof {
        assert(b@.subrange(0, b@.len() as int) =~= b@);
        assert(out@ =~= old(out)@ + enc_bytes(b@));
    }
}

/// Append a list of byte strings in its wire form.
pub fn write_byte_lists(out: &mut String, l: &Vec<Vec<u8>>)
    ensures
        final(out)@ == old(out)@ + enc_byte_lists(l.deep_view()),
{
    write_u64(out, l.len() as u64);
    let ghost start = out@;
    let ghost dl = l.deep_view();
    proof {
        assert(dl.len() == l@.len());
    }
    let mut i: usize = 0;
    while i < l.len()
        invariant
            i <= l@.len(),
            dl == l.deep_view(),
            dl.len() == l@.len(),
            out@ == start + enc_bl_run(dl.subrange(0, i as int)),
        decreases l@.len() - i,
    {
        write_bytes(out, &l[i]);
        proof {
            assert(l@[i as int].deep_view() =~= l@[i as int]@);
            assert(dl[i as int] == l@[i as int]@);
            assert(dl.subrange(0, i + 1 as int) =~= dl.subrange(0, i as int).push(dl[i as int]));
            lemma_enc_bl_run_snoc(dl.subrange(0, i as int), dl[i as int]);
            assert(out@ =~= start + enc_bl_run(dl.subrange(0, i + 1 as int)));
        }
        i = i + 1;
    }
    proof {
        assert(dl.subrange(0, dl.len() as int) =~= dl);
        assert(out@ =~= old(out)@ + enc_byte_lists(dl));
    }
}

/// Read a byte string in its wire form, strictly.
pub fn read_bytes(s: &str, pos: usize) -> (r: Option<(Vec<u8>, usize)>)
    ensures
        match r {
            None => sdec_bytes(s@, pos as int) == None::<(Seq<u8>, int)>,
            Some((v, p)) => sdec_bytes(s@, pos as int) == Some((v@, p as int)) && p <= s@.len()
                && pos < p,
        },
{
    let (n, p0) = match read_u64(s, pos) {
        None => {
            return None;
        },
        Some(x) => x,
    };
    let mut acc: Vec<u8> = Vec::new();
    let mut p: usize = p0;
    let mut k: u64 = 0;
    while k < n
        invariant
            k <= n,
            p <= s@.len(),
            pos < p,
            sdec_u64(s@, pos as int) == Some((n as int, p0 as int)),
            sdec_byte_run(s@, p0 as int, n as int) == match sdec_byte_run(
                s@,
                p as int,
                n - k as int,
            ) {
                Option::None => Option::None::<(Seq<u8>, int)>,
                Option::Some((rest, pp)) => Option::Some((acc@ + rest, pp)),
            },
        decreases n - k,
    {
        let ghost old_acc = acc@;
        let ghost old_p = p as int;
        let ghost rem = n - k as int;
        match read_u64(s, p) {
            None => {
                assert(sdec_byte_run(s@, old_p, rem) == None::<(Seq<u8>, int)>);
                return None;
            },
            Some((v, p2)) => {
                if v > 255 {
                    assert(sdec_byte_run(s@, old_p, rem) == None::<(Seq<u8>, int)>);
                    return None;
                }
                proof {
                    assert(sdec_byte_run(s@, old_p, rem) == match sdec_byte_run(
                        s@,
                        p2 as int,
                        rem - 1,
                    ) {
                        Option::None => Option::None::<(Seq<u8>, int)>,
                        Option::Some((rest, pp)) => Option::Some((seq![v as u8] + rest, pp)),
                    });
                }
                acc.push(v as u8);
                p = p2;
                k = k + 1;
                proof {
                    match sdec_byte_run(s@, p as int, n - k as int) {
                        Option::None => {},
                        Option::Some((rest, pp)) => {
                            assert(old_acc + (seq![v as u8] + rest) =~= acc@ + rest);
                        },
                    }
                }
            },
        }
    }
    proof {
        assert(sdec_byte_run(s@, p as int, 0) == Some((Seq::<u8>::empty(), p as int)));
        assert(acc@ + Seq::<u8>::empty() =~= acc@);
    }
    Some((acc, p))
}

/// Read a list of byte strings in its wire form, strictly.
pub fn read_byte_lists(s: &str, pos: usize) -> (r: Option<(Vec<Vec<u8>>, usize)>)
    ensures
        match r {
            None => sdec_byte_lists(s@, pos as int) == None::<(Seq<Seq<u8>>, int)>,
            Some((v, p)) => sdec_byte_lists(s@, pos as int) == Some((v.deep_view(), p as int))
                && p <= s@.len() && pos < p,
        },
{
    let (n, p0) = match read_u64(s, pos) {
        None => {
            return None;
        },
        Some(x) => x,
    };
    let mut acc: Vec<Vec<u8>> = Vec::new();
    let mut p: usize = p0;
    let mut k: u64 = 0;
    while k < n
        invariant
            k <= n,
            p <= s@.len(),
            pos < p,
            acc.deep_view().len() == acc@.len(),
            sdec_u64(s@, pos as int) == Some((n as int, p0 as int)),
            sdec_bl_run(s@, p0 as int, n as int) == match sdec_bl_run(s@, p as int, n - k as int) {
                Option::None => Option::None::<(Seq<Seq<u8>>, int)>,
                Option::Some((rest, pp)) => Option::Some((acc.deep_view() + rest, pp)),
            },
        decreases n - k,
    {
        let ghost old_acc = acc.deep_view();
        let ghost old_p = p as int;
        let ghost rem = n - k as int;
        match read_bytes(s, p) {
            None => {
                assert(sdec_bl_run(s@, old_p, rem) == None::<(Seq<Seq<u8>>, int)>);
                return None;
            },
            Some((v, p2)) => {
                let ghost vv = v@;
                proof {
                    assert(sdec_bl_run(s@, old_p, rem) == match sdec_bl_run(s@, p2 as int, rem - 1) {
                        Option::None => Option::None::<(Seq<Seq<u8>>, int)>,
                        Option::Some((rest, pp)) => Option::Some((seq![vv] + rest, pp)),
                    });
                    assert(v.deep_view() =~= vv);
                }
                acc.push(v);
                p = p2;
                k = k + 1;
                proof {
                    assert(acc.deep_view() =~= old_acc.push(vv));
                    match sdec_bl_run(s@, p as int, n - k as int) {
                        Option::None => {},
                        Option::Some((rest, pp)) => {
                            assert(old_acc + (seq![vv] + rest) =~= acc.deep_view() + rest);
                        },
                    }
                }
            },
        }
    }
    proof {
        assert(sdec_bl_run(s@, p as int, 0) == Some((Seq::<Seq<u8>>::empty(), p as int)));
        assert(acc.deep_view() + Seq::<Seq<u8>>::empty() =~= acc.deep_view());
    }
    Some((acc, p))
}

/// Read a string in its wire form, strictly.
pub fn read_str(s: &str, pos: usize) -> (r: Option<(String, usize)>)
    ensures
        match r {
            None => sdec_str(s@, pos as int) == None::<(Seq<char>, int)>,
            Some((v, p)) => sdec_str(s@, pos as int) == Some((v@, p as int)) && p <= s@.len()
                && pos < p,
        },
{
    let slen = s.unicode_len();
    match read_u64(s, pos) {
        None => None,
        Some((n, p)) => {
            if n > (slen - p) as u64 {
                return None;
            }
            let end = p + (n as usize);
            let sub = s.substring_char(p, end);
            Some((sub.to_owned(), end))
        },
    }
}

} // verus!
