//! Text primitives the snapshot encodings are built from: decimal
//! rendering and reading of `u64` values, two-decimal fixed-point
//! rendering of centi-unit values, and character scanning.
//!
//! Every renderer has a spec-level definition and an inverse: what it
//! writes, the matching reader reads back.

use vstd::prelude::*;
use vstd::arithmetic::div_mod::lemma_fundamental_div_mod;
use vstd::string::StrSliceExecFns;

verus! {

/// The digit character of a value in `0 ..= 9`.
pub open spec fn digit_char_spec(d: int) -> char {
    if d == 0 {
        '0'
    } else if d == 1 {
        '1'
    } else if d == 2 {
        '2'
    } else if d == 3 {
        '3'
    } else if d == 4 {
        '4'
    } else if d == 5 {
        '5'
    } else if d == 6 {
        '6'
    } else if d == 7 {
        '7'
    } else if d == 8 {
        '8'
    } else {
        '9'
    }
}

pub open spec fn is_digit(c: char) -> bool {
    48 <= c as u32 <= 57
}

/// The numeric value of a digit character.
pub open spec fn digit_val(c: char) -> int {
    c as u32 - 48
}

/// The decimal rendering of a non-negative value: most significant digit
/// first, no leading zeros (a lone `0` for zero).
pub open spec fn dec_digits(n: int) -> Seq<char>
    recommends
        n >= 0,
    decreases n,
{
    if n < 10 {
        seq![digit_char_spec(n)]
    } else {
        dec_digits(n / 10) + seq![digit_char_spec(n % 10)]
    }
}

/// The value of a digit string (most significant first; empty reads as 0).
pub open spec fn dec_val(s: Seq<char>) -> int
    decreases s.len(),
{
    if s.len() == 0 {
        0
    } else {
        dec_val(s.drop_last()) * 10 + digit_val(s.last())
    }
}

pub open spec fn all_digits(s: Seq<char>) -> bool {
    forall|i: int| 0 <= i < s.len() ==> is_digit(#[trigger] s[i])
}

/// Rendering a value and reading the text back gives the value: the
/// decimal renderer and reader are inverses.
pub proof fn lemma_dec_digits_val(n: int)
    requires
        n >= 0,
    ensures
        dec_val(dec_digits(n)) == n,
        all_digits(dec_digits(n)),
        dec_digits(n).len() >= 1,
    decreases n,
{
    if n < 10 {
        let s = dec_digits(n);
        assert(s.drop_last() =~= Seq::<char>::empty());
        assert(digit_val(digit_char_spec(n)) == n);
        assert(dec_val(s) == dec_val(s.drop_last()) * 10 + digit_val(s.last()));
    } else {
        lemma_dec_digits_val(n / 10);
        lemma_fundamental_div_mod(n, 10);
        let hd = dec_digits(n / 10);
        let s = hd + seq![digit_char_spec(n % 10)];
        assert(s.drop_last() =~= hd);
        assert(s.last() == digit_char_spec(n % 10));
        assert(digit_val(digit_char_spec(n % 10)) == n % 10);
        assert(all_digits(s)) by {
            assert(forall|i: int| 0 <= i < hd.len() ==> s[i] == hd[i]);
        }
    }
}

/// Reading one more digit never shrinks the value.
pub proof fn lemma_dec_val_nonneg(s: Seq<char>)
    requires
        all_digits(s),
    ensures
        dec_val(s) >= 0,
    decreases s.len(),
{
    if s.len() > 0 {
        assert(all_digits(s.drop_last())) by {
            assert(forall|i: int| 0 <= i < s.len() - 1 ==> s.drop_last()[i] == s[i]);
        }
        lemma_dec_val_nonneg(s.drop_last());
        assert(digit_val(s.last()) >= 0);
    }
}

/// Append one digit character to the rendering of `n`.
fn push_digit(out: &mut Vec<char>, d: u64)
    requires
        d < 10,
    ensures
        final(out)@ == old(out)@.push(digit_char_spec(d as int)),
{
    let c: char = if d == 0 {
        '0'
    } else if d == 1 {
        '1'
    } else if d == 2 {
        '2'
    } else if d == 3 {
        '3'
    } else if d == 4 {
        '4'
    } else if d == 5 {
        '5'
    } else if d == 6 {
        '6'
    } else if d == 7 {
        '7'
    } else if d == 8 {
        '8'
    } else {
        '9'
    };
    out.push(c);
}

/// Append the decimal rendering of `n`.
pub fn push_dec(out: &mut Vec<char>, n: u64)
    ensures
        final(out)@ == old(out)@ + dec_digits(n as int),
    decreases n,
{
    if n < 10 {
        push_digit(out, n);
        assert(final(out)@ =~= old(out)@ + dec_digits(n as int));
    } else {
        push_dec(out, n / 10);
        push_digit(out, n % 10);
        assert(final(out)@ =~= old(out)@ + dec_digits(n as int));
    }
}

/// The two-decimal fixed-point rendering of a centi-unit value:
/// `q.rr` where `q` is the whole part and `rr` the two-digit fraction.
pub open spec fn fixed2_digits(centi: int) -> Seq<char>
    recommends
        centi >= 0,
{
    dec_digits(centi / 100) + seq!['.'] + seq![
        digit_char_spec((centi % 100) / 10),
        digit_char_spec(centi % 10),
    ]
}

/// Append the two-decimal rendering of a centi-unit value.
pub fn push_fixed2(out: &mut Vec<char>, centi: u64)
    ensures
        final(out)@ == old(out)@ + fixed2_digits(centi as int),
{
    push_dec(out, centi / 100);
    out.push('.');
    push_digit(out, (centi % 100) / 10);
    push_digit(out, centi % 10);
    proof {
        lemma_fundamental_div_mod(centi as int, 100);
        lemma_fundamental_div_mod((centi as int) % 100, 10);
        assert((centi as int) % 100 % 10 == centi as int % 10) by (nonlinear_arith)
            requires
                centi >= 0,
        ;
        assert(final(out)@ =~= old(out)@ + fixed2_digits(centi as int));
    }
}

/// Append every character of `piece`.
pub fn push_all(out: &mut Vec<char>, piece: &Vec<char>)
    ensures
        final(out)@ == old(out)@ + piece@,
{
    let mut i: usize = 0;
    while i < piece.len()
        invariant
            i <= piece@.len(),
            out@ == old(out)@ + piece@.take(i as int),
        decreases piece@.len() - i,
    {
        out.push(piece[i]);
        proof {
            assert(old(out)@ + piece@.take(i + 1) =~= (old(out)@ + piece@.take(i as int)).push(
                piece@[i as int],
            ));
        }
        i += 1;
    }
    proof {
        assert(piece@.take(piece@.len() as int) =~= piece@);
    }
}

/// Append every character of the string slice `piece`.
pub fn push_str_chars(out: &mut Vec<char>, piece: &str)
    ensures
        final(out)@ == old(out)@ + piece@,
{
    let n = piece.unicode_len();
    let mut i: usize = 0;
    while i < n
        invariant
            i <= n,
            n == piece@.len(),
            out@ == old(out)@ + piece@.take(i as int),
        decreases n - i,
    {
        let c = piece.get_char(i);
        out.push(c);
        proof {
            assert(old(out)@ + piece@.take(i + 1) =~= (old(out)@ + piece@.take(i as int)).push(
                piece@[i as int],
            ));
        }
        i += 1;
    }
    proof {
        assert(piece@.take(piece@.len() as int) =~= piece@);
    }
}

/// The characters of a string, as a vector.
pub fn chars_of_str(s: &str) -> (r: Vec<char>)
    ensures
        r@ == s@,
{
    let mut out: Vec<char> = Vec::new();
    push_str_chars(&mut out, s);
    out
}

/// Relies on `String`'s `FromIterator<char>` implementation: collecting
/// characters builds the string of exactly those characters, in order.
#[verifier::external_body]
pub(crate) fn string_of_chars(v: &Vec<char>) -> (r: String)
    ensures
        r@ == v@,
{
    v.iter().collect()
}

/// The two-decimal text of a centi-unit value.
pub fn fixed2_text(centi: u64) -> (r: String)
    ensures
        r@ == fixed2_digits(centi as int),
{
    let mut out: Vec<char> = Vec::new();
    push_fixed2(&mut out, centi);
    string_of_chars(&out)
}

/// The decimal text of a value.
pub fn dec_text(n: u64) -> (r: String)
    ensures
        r@ == dec_digits(n as int),
{
    let mut out: Vec<char> = Vec::new();
    push_dec(&mut out, n);
    string_of_chars(&out)
}

/// A copy of `s[from .. to]`.
pub fn subrange_chars(s: &Vec<char>, from: usize, to: usize) -> (r: Vec<char>)
    requires
        from <= to <= s@.len(),
    ensures
        r@ == s@.subrange(from as int, to as int),
{
    let mut out: Vec<char> = Vec::new();
    let mut i: usize = from;
    while i < to
        invariant
            from <= i <= to <= s@.len(),
            out@ == s@.subrange(from as int, i as int),
        decreases to - i,
    {
        out.push(s[i]);
        proof {
            assert(s@.subrange(from as int, i + 1) =~= s@.subrange(from as int, i as int).push(
                s@[i as int],
            ));
        }
        i += 1;
    }
    out
}

/// The first position at or past `i` holding `stop`, or the length if
/// there is none.
pub open spec fn find_char(s: Seq<char>, i: int, stop: char) -> int
    recommends
        0 <= i <= s.len(),
    decreases s.len() - i,
{
    if i < 0 || i >= s.len() {
        s.len() as int
    } else if s[i] == stop {
        i
    } else {
        find_char(s, i + 1, stop)
    }
}

/// Where a stretch free of `stop` ends at a `stop` or at the end of the
/// text, the scan from its start finds exactly that end.
pub proof fn lemma_find_char_past(s: Seq<char>, i: int, k: int, stop: char)
    requires
        0 <= i <= k <= s.len(),
        forall|j: int| i <= j < k ==> s[j] != stop,
        k == s.len() || s[k] == stop,
    ensures
        find_char(s, i, stop) == k,
    decreases k - i,
{
    if i < k {
        lemma_find_char_past(s, i + 1, k, stop);
    }
}

/// Basic bounds of the scan: it lands between `i` and the end, on `stop`
/// unless it ran off, and everything it skipped differs from `stop`.
pub proof fn lemma_find_char_bounds(s: Seq<char>, i: int, stop: char)
    requires
        0 <= i <= s.len(),
    ensures
        i <= find_char(s, i, stop) <= s.len(),
        find_char(s, i, stop) < s.len() ==> s[find_char(s, i, stop)] == stop,
        forall|j: int| i <= j < find_char(s, i, stop) ==> s[j] != stop,
    decreases s.len() - i,
{
    if i < s.len() && s[i] != stop {
        lemma_find_char_bounds(s, i + 1, stop);
    }
}

/// `s` holds no occurrence of `sep`.
pub open spec fn free_of(s: Seq<char>, sep: char) -> bool {
    forall|i: int| 0 <= i < s.len() ==> s[i] != sep
}

/// Concatenation keeps freedom from a character.
pub proof fn lemma_free_concat(a: Seq<char>, b: Seq<char>, c: char)
    requires
        free_of(a, c),
        free_of(b, c),
    ensures
        free_of(a + b, c),
{
    assert forall|i: int| 0 <= i < (a + b).len() implies (a + b)[i] != c by {
        if i < a.len() {
            assert((a + b)[i] == a[i]);
        } else {
            assert((a + b)[i] == b[i - a.len()]);
        }
    }
}

/// A digit string is free of any non-digit character.
pub proof fn lemma_digits_free(s: Seq<char>, c: char)
    requires
        all_digits(s),
        !is_digit(c),
    ensures
        free_of(s, c),
{
}

/// A fixed-point rendering is free of any character that is neither a
/// digit nor the point.
pub proof fn lemma_fixed2_free(centi: int, c: char)
    requires
        centi >= 0,
        !is_digit(c),
        c != '.',
    ensures
        free_of(fixed2_digits(centi), c),
{
    lemma_fixed2_chars(centi);
}

/// The pieces joined with `sep` between consecutive pieces.
pub open spec fn join_sep(fs: Seq<Seq<char>>, sep: char) -> Seq<char>
    recommends
        fs.len() >= 1,
    decreases fs.len(),
{
    if fs.len() == 0 {
        Seq::<char>::empty()
    } else if fs.len() == 1 {
        fs[0]
    } else {
        fs[0] + seq![sep] + join_sep(fs.drop_first(), sep)
    }
}

/// The pieces of `s` between occurrences of `sep`: always at least one
/// piece, one more per occurrence.
pub open spec fn split_sep(s: Seq<char>, sep: char) -> Seq<Seq<char>>
    decreases s.len(),
{
    let j = find_char(s, 0, sep);
    if 0 <= j && j < s.len() {
        seq![s.subrange(0, j)] + split_sep(s.subrange(j + 1, s.len() as int), sep)
    } else {
        seq![s]
    }
}

/// Appending one more piece joins on the right.
pub proof fn lemma_join_sep_push(fs: Seq<Seq<char>>, f: Seq<char>, sep: char)
    requires
        fs.len() >= 1,
    ensures
        join_sep(fs.push(f), sep) == join_sep(fs, sep) + seq![sep] + f,
    decreases fs.len(),
{
    let pushed = fs.push(f);
    assert(pushed.drop_first() =~= fs.drop_first().push(f));
    if fs.len() == 1 {
        assert(pushed.drop_first() =~= seq![f]);
        assert(join_sep(pushed, sep) == fs[0] + seq![sep] + join_sep(pushed.drop_first(), sep));
    } else {
        lemma_join_sep_push(fs.drop_first(), f, sep);
        assert(join_sep(pushed, sep) == fs[0] + seq![sep] + join_sep(pushed.drop_first(), sep));
        assert(fs[0] + seq![sep] + (join_sep(fs.drop_first(), sep) + seq![sep] + f) =~= (fs[0]
            + seq![sep] + join_sep(fs.drop_first(), sep)) + seq![sep] + f);
    }
}

/// Joining pieces free of `c` with a separator other than `c` stays free
/// of `c`.
pub proof fn lemma_join_free(fs: Seq<Seq<char>>, sep: char, c: char)
    requires
        fs.len() >= 1,
        c != sep,
        forall|k: int| 0 <= k < fs.len() ==> free_of(#[trigger] fs[k], c),
    ensures
        free_of(join_sep(fs, sep), c),
    decreases fs.len(),
{
    if fs.len() > 1 {
        assert(forall|k: int|
            0 <= k < fs.drop_first().len() ==> free_of(#[trigger] fs.drop_first()[k], c));
        lemma_join_free(fs.drop_first(), sep, c);
        assert(free_of(seq![sep], c));
        lemma_free_concat(fs[0], seq![sep], c);
        lemma_free_concat(fs[0] + seq![sep], join_sep(fs.drop_first(), sep), c);
    }
}

/// Splitting what was joined from separator-free pieces gives the pieces
/// back: `split_sep` is the inverse of `join_sep`.
pub proof fn lemma_split_join(fs: Seq<Seq<char>>, sep: char)
    requires
        fs.len() >= 1,
        forall|k: int| 0 <= k < fs.len() ==> free_of(#[trigger] fs[k], sep),
    ensures
        split_sep(join_sep(fs, sep), sep) == fs,
    decreases fs.len(),
{
    let s = join_sep(fs, sep);
    if fs.len() == 1 {
        lemma_find_char_past(s, 0, s.len() as int, sep);
        assert(split_sep(s, sep) =~~= fs);
    } else {
        let head = fs[0];
        let rest = fs.drop_first();
        let tail = join_sep(rest, sep);
        assert(s == head + seq![sep] + tail);
        assert(forall|j: int| 0 <= j < head.len() ==> s[j] == head[j]);
        assert(s[head.len() as int] == sep);
        lemma_find_char_past(s, 0, head.len() as int, sep);
        assert(s.subrange(0, head.len() as int) =~= head);
        assert(s.subrange(head.len() as int + 1, s.len() as int) =~= tail);
        lemma_split_join(rest, sep);
        assert(split_sep(s, sep) =~~= fs);
    }
}

/// Join the pieces with `sep` between consecutive pieces.
pub fn join_sep_exec(fields: &Vec<Vec<char>>, sep: char) -> (r: Vec<char>)
    requires
        fields@.len() >= 1,
    ensures
        r@ == join_sep(fields.deep_view(), sep),
{
    proof {
        assert(forall|k: int|
            0 <= k < fields@.len() ==> #[trigger] fields.deep_view()[k] =~= fields@[k]@);
    }
    let mut out: Vec<char> = Vec::new();
    push_all(&mut out, &fields[0]);
    proof {
        assert(fields.deep_view().take(1) =~~= seq![fields@[0]@]);
    }
    let mut i: usize = 1;
    while i < fields.len()
        invariant
            1 <= i <= fields@.len(),
            fields.deep_view().len() == fields@.len(),
            forall|k: int| 0 <= k < fields@.len() ==> #[trigger] fields.deep_view()[k] == fields@[k]@,
            out@ == join_sep(fields.deep_view().take(i as int), sep),
        decreases fields@.len() - i,
    {
        out.push(sep);
        push_all(&mut out, &fields[i]);
        proof {
            let fv = fields.deep_view();
            lemma_join_sep_push(fv.take(i as int), fv[i as int], sep);
            assert(fv.take(i as int).push(fv[i as int]) =~= fv.take(i + 1));
            assert(out@ =~= join_sep(fv.take(i as int), sep) + seq![sep] + fv[i as int]);
        }
        i += 1;
    }
    proof {
        assert(fields.deep_view().take(fields@.len() as int) =~= fields.deep_view());
    }
    out
}

/// Split `s` into the pieces between occurrences of `sep`.
pub fn split_sep_exec(s: &Vec<char>, sep: char) -> (r: Vec<Vec<char>>)
    ensures
        r.deep_view() == split_sep(s@, sep),
        r@.len() >= 1,
    decreases s@.len(),
{
    let j = find_char_from(s, 0, sep);
    proof {
        lemma_find_char_bounds(s@, 0, sep);
    }
    if j < s.len() {
        let head = subrange_chars(s, 0, j);
        let tail = subrange_chars(s, j + 1, s.len());
        let mut rest = split_sep_exec(&tail, sep);
        rest.insert(0, head);
        proof {
            assert(rest.deep_view() =~~= seq![head@] + split_sep(tail@, sep));
        }
        rest
    } else {
        let whole = subrange_chars(s, 0, s.len());
        let mut r: Vec<Vec<char>> = Vec::new();
        r.push(whole);
        proof {
            assert(s@.subrange(0, s@.len() as int) =~= s@);
            assert(r.deep_view() =~~= seq![s@]);
        }
        r
    }
}

/// Whether two character vectors hold the same text.
pub fn eq_chars(a: &Vec<char>, b: &Vec<char>) -> (r: bool)
    ensures
        r == (a@ == b@),
{
    if a.len() != b.len() {
        proof {
            assert(a@ != b@);
        }
        return false;
    }
    let mut i: usize = 0;
    while i < a.len()
        invariant
            i <= a@.len(),
            a@.len() == b@.len(),
            forall|k: int| 0 <= k < i ==> a@[k] == b@[k],
        decreases a@.len() - i,
    {
        if a[i] != b[i] {
            proof {
                assert(a@ != b@);
            }
            return false;
        }
        i += 1;
    }
    proof {
        assert(a@ =~= b@);
    }
    true
}

/// A prefix of a digit string never reads as more than the whole.
pub proof fn lemma_dec_val_prefix(s: Seq<char>, i: int)
    requires
        all_digits(s),
        0 <= i <= s.len(),
    ensures
        dec_val(s.subrange(0, i)) <= dec_val(s),
    decreases s.len() - i,
{
    if i < s.len() {
        assert(s.subrange(0, i + 1).drop_last() =~= s.subrange(0, i));
        assert(all_digits(s.subrange(0, i))) by {
            assert(forall|k: int| 0 <= k < i ==> s.subrange(0, i)[k] == s[k]);
        }
        lemma_dec_val_nonneg(s.subrange(0, i));
        assert(is_digit(s[i]));
        lemma_dec_val_prefix(s, i + 1);
    } else {
        assert(s.subrange(0, i) =~= s);
    }
}

/// A whole field read as a decimal `u64`: every character a digit, at
/// least one of them, and the value in range.
pub open spec fn parse_u64_field(f: Seq<char>) -> Option<u64> {
    if f.len() >= 1 && all_digits(f) && dec_val(f) <= u64::MAX {
        Some(dec_val(f) as u64)
    } else {
        None
    }
}

/// The decimal renderer and the field reader are inverses.
pub proof fn lemma_parse_u64_field(n: u64)
    ensures
        parse_u64_field(dec_digits(n as int)) == Some(n),
{
    lemma_dec_digits_val(n as int);
}

/// A whole field read as a two-decimal fixed-point centi-unit value:
/// one or more digits, a point, exactly two digits.
pub open spec fn parse_fixed2_field(f: Seq<char>) -> Option<u64> {
    let j = f.len() - 3;
    if f.len() >= 4 && f[j] == '.' && all_digits(f.subrange(0, j)) && is_digit(f[j + 1]) && is_digit(
        f[j + 2],
    ) {
        let v = dec_val(f.subrange(0, j)) * 100 + digit_val(f[j + 1]) * 10 + digit_val(f[j + 2]);
        if v <= u64::MAX {
            Some(v as u64)
        } else {
            None
        }
    } else {
        None
    }
}

/// The fixed-point renderer and the field reader are inverses.
pub proof fn lemma_parse_fixed2_field(centi: u64)
    ensures
        parse_fixed2_field(fixed2_digits(centi as int)) == Some(centi),
{
    let c = centi as int;
    let q = c / 100;
    lemma_dec_digits_val(q);
    let hd = dec_digits(q);
    let f = fixed2_digits(c);
    assert(f.len() == hd.len() + 3);
    let j = f.len() - 3;
    assert(f.subrange(0, j) =~= hd);
    assert(f[j] == '.');
    assert(f[j + 1] == digit_char_spec((c % 100) / 10));
    assert(f[j + 2] == digit_char_spec(c % 10));
    lemma_fundamental_div_mod(c, 100);
    lemma_fundamental_div_mod(c % 100, 10);
    assert(c % 100 % 10 == c % 10) by (nonlinear_arith)
        requires
            c >= 0,
    ;
    assert(digit_val(f[j + 1]) == (c % 100) / 10);
    assert(digit_val(f[j + 2]) == c % 10);
}

/// The fixed-point rendering is made of digits and one point.
pub proof fn lemma_fixed2_chars(centi: int)
    requires
        centi >= 0,
    ensures
        forall|i: int|
            0 <= i < fixed2_digits(centi).len() ==> (is_digit(#[trigger] fixed2_digits(centi)[i])
                || fixed2_digits(centi)[i] == '.'),
{
    lemma_dec_digits_val(centi / 100);
    let hd = dec_digits(centi / 100);
    let f = fixed2_digits(centi);
    assert forall|i: int| 0 <= i < f.len() implies (is_digit(f[i]) || f[i] == '.') by {
        if i < hd.len() {
            assert(f[i] == hd[i]);
            assert(is_digit(hd[i]));
        }
    }
}

/// Read a whole field as a decimal `u64`.
pub fn parse_u64_field_exec(f: &Vec<char>) -> (r: Option<u64>)
    ensures
        r == parse_u64_field(f@),
{
    if f.len() == 0 {
        return None;
    }
    let mut acc: u64 = 0;
    let mut i: usize = 0;
    while i < f.len()
        invariant
            i <= f@.len(),
            all_digits(f@.subrange(0, i as int)),
            acc == dec_val(f@.subrange(0, i as int)),
        decreases f@.len() - i,
    {
        let c = f[i];
        let cv = c as u32;
        if cv < 48 || cv > 57 {
            proof {
                assert(!is_digit(f@[i as int]));
                assert(!all_digits(f@));
            }
            return None;
        }
        let d = (cv - 48) as u64;
        proof {
            assert(f@.subrange(0, i + 1).drop_last() =~= f@.subrange(0, i as int));
            assert(digit_val(f@[i as int]) == d);
            assert(is_digit(f@[i as int]));
            assert(forall|k: int|
                0 <= k < i + 1 ==> is_digit(#[trigger] f@.subrange(0, i + 1)[k]));
        }
        let wide: u128 = (acc as u128) * 10 + (d as u128);
        if wide > u64::MAX as u128 {
            proof {
                let pre = f@.subrange(0, i + 1);
                assert(dec_val(pre) == wide);
                if all_digits(f@) {
                    lemma_dec_val_prefix(f@, i + 1);
                }
            }
            return None;
        }
        acc = wide as u64;
        i += 1;
    }
    proof {
        assert(f@.subrange(0, f@.len() as int) =~= f@);
    }
    Some(acc)
}

/// Read a whole field as a two-decimal fixed-point centi-unit value.
pub fn parse_fixed2_field_exec(f: &Vec<char>) -> (r: Option<u64>)
    ensures
        r == parse_fixed2_field(f@),
{
    if f.len() < 4 {
        return None;
    }
    let j = f.len() - 3;
    if f[j] != '.' {
        return None;
    }
    let ip = subrange_chars(f, 0, j);
    let q = match parse_u64_field_exec(&ip) {
        Some(q) => q,
        None => {
            proof {
                if all_digits(f@.subrange(0, j as int)) && parse_fixed2_field(f@) is Some {
                    let sub = f@.subrange(0, j as int);
                    assert(dec_val(sub) > u64::MAX);
                    lemma_dec_val_nonneg(sub);
                    assert(digit_val(f@[j + 1]) >= 0 && digit_val(f@[j + 2]) >= 0);
                    assert(dec_val(sub) * 100 >= dec_val(sub)) by (nonlinear_arith)
                        requires
                            dec_val(sub) >= 0,
                    ;
                }
            }
            return None;
        },
    };
    let c1 = f[j + 1] as u32;
    let c2 = f[j + 2] as u32;
    if c1 < 48 || c1 > 57 || c2 < 48 || c2 > 57 {
        return None;
    }
    let d1 = (c1 - 48) as u64;
    let d2 = (c2 - 48) as u64;
    proof {
        assert(digit_val(f@[j + 1]) == d1 && digit_val(f@[j + 2]) == d2);
        lemma_dec_val_nonneg(f@.subrange(0, j as int));
    }
    let wide: u128 = (q as u128) * 100 + (d1 as u128) * 10 + (d2 as u128);
    if wide > u64::MAX as u128 {
        return None;
    }
    Some(wide as u64)
}

/// Read a whole field as an optional fixed-point value: an empty field is
/// an absent value, as the encodings render "no data".
pub open spec fn parse_opt_fixed2_field(f: Seq<char>) -> Option<Option<u64>> {
    if f.len() == 0 {
        Some(None)
    } else {
        match parse_fixed2_field(f) {
            Some(v) => Some(Some(v)),
            None => None,
        }
    }
}

/// Read a whole field as an optional fixed-point value.
pub fn parse_opt_fixed2_field_exec(f: &Vec<char>) -> (r: Option<Option<u64>>)
    ensures
        r == parse_opt_fixed2_field(f@),
{
    if f.len() == 0 {
        Some(None)
    } else {
        match parse_fixed2_field_exec(f) {
            Some(v) => Some(Some(v)),
            None => None,
        }
    }
}

/// Scan for `stop` from position `i`.
pub fn find_char_from(s: &Vec<char>, i: usize, stop: char) -> (r: usize)
    requires
        i <= s@.len(),
    ensures
        r == find_char(s@, i as int, stop),
{
    let mut j: usize = i;
    while j < s.len()
        invariant
            i <= j <= s@.len(),
            find_char(s@, i as int, stop) == find_char(s@, j as int, stop),
        decreases s@.len() - j,
    {
        if s[j] == stop {
            return j;
        }
        j += 1;
    }
    j
}

} // verus!
