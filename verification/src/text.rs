//! Text utilities over Unicode scalar values.

use vstd::prelude::*;

verus! {

broadcast use vstd::string::group_string_axioms;

/// The characters of a string slice, in order.
pub fn chars_of(s: &str) -> (res: Vec<char>)
    ensures
        res@ == s@,
{
    let mut res: Vec<char> = Vec::new();
    for c in it: s.chars()
        invariant
            it.seq() == s@,
            res@ == it.seq().take(it.index()),
    {
        res.push(c);
        assert(it.seq().take(it.index() + 1) == it.seq().take(it.index()).push(c));
    }
    assert(s@.take(s@.len() as int) == s@);
    res
}

/// `p` is a prefix of `s`.
pub open spec fn has_prefix(s: Seq<char>, p: Seq<char>) -> bool {
    p.len() <= s.len() && s.take(p.len() as int) == p
}

/// Whether the characters `s` begin with the characters `p`.
pub fn starts_with_chars(s: &Vec<char>, p: &Vec<char>) -> (res: bool)
    ensures
        res == has_prefix(s@, p@),
{
    if p.len() > s.len() {
        return false;
    }
    let mut i: usize = 0;
    while i < p.len()
        invariant
            p.len() <= s.len(),
            i <= p.len(),
            forall|j: int| 0 <= j < i ==> s@[j] == p@[j],
        decreases p.len() - i,
    {
        if s[i] != p[i] {
            assert(s@.take(p@.len() as int)[i as int] != p@[i as int]);
            return false;
        }
        i = i + 1;
    }
    assert(s@.take(p@.len() as int) =~= p@);
    true
}

/// The Unicode `White_Space` property.
pub open spec fn is_white_space(c: char) -> bool {
    let u = c as u32;
    ||| 0x09 <= u <= 0x0D
    ||| u == 0x20
    ||| u == 0x85
    ||| u == 0xA0
    ||| u == 0x1680
    ||| 0x2000 <= u <= 0x200A
    ||| u == 0x2028
    ||| u == 0x2029
    ||| u == 0x202F
    ||| u == 0x205F
    ||| u == 0x3000
}

/// Whether `c` has the Unicode `White_Space` property.
pub fn is_whitespace_char(c: char) -> (res: bool)
    ensures
        res == is_white_space(c),
{
    let u = c as u32;
    (0x09 <= u && u <= 0x0D) || u == 0x20 || u == 0x85 || u == 0xA0 || u == 0x1680 || (0x2000
        <= u && u <= 0x200A) || u == 0x2028 || u == 0x2029 || u == 0x202F || u == 0x205F || u
        == 0x3000
}

/// The pieces of `s` between whitespace characters, empty pieces included.
pub open spec fn split_at_white_space(s: Seq<char>) -> Seq<Seq<char>>
    decreases s.len(),
{
    if s.len() == 0 {
        seq![Seq::<char>::empty()]
    } else {
        let pieces = split_at_white_space(s.drop_last());
        if is_white_space(s.last()) {
            pieces.push(Seq::<char>::empty())
        } else {
            pieces.update(pieces.len() - 1, pieces.last().push(s.last()))
        }
    }
}

pub open spec fn non_empty(w: Seq<char>) -> bool {
    w.len() > 0
}

/// The words of `s`: the non-empty pieces between runs of whitespace.
pub open spec fn words(s: Seq<char>) -> Seq<Seq<char>> {
    split_at_white_space(s).filter(|w: Seq<char>| non_empty(w))
}

/// The characters of each of a sequence of string slices.
pub open spec fn strs_view(v: Seq<&str>) -> Seq<Seq<char>> {
    v.map_values(|w: &str| w@)
}

/// The words of `s`, as sub-slices of `s`.
pub fn split_whitespace<'a>(s: &'a str) -> (res: Vec<&'a str>)
    ensures
        strs_view(res@) == words(s@),
{
    broadcast use Seq::lemma_filter_push;

    let chars = chars_of(s);
    let n = chars.len();
    let mut res: Vec<&'a str> = Vec::new();
    let mut start: usize = 0;
    let mut i: usize = 0;
    let ghost mut done: Seq<Seq<char>> = Seq::empty();
    let ghost pred = |w: Seq<char>| non_empty(w);
    assert(s@.take(0) =~= Seq::<char>::empty());
    assert(done.push(s@.subrange(0, 0)) =~= seq![Seq::<char>::empty()]);
    while i < n
        invariant
            n == chars@.len(),
            chars@ == s@,
            start <= i <= n,
            split_at_white_space(s@.take(i as int)) == done.push(s@.subrange(start as int, i as int)),
            strs_view(res@) == done.filter(pred),
            pred == (|w: Seq<char>| non_empty(w)),
        decreases n - i,
    {
        let c = chars[i];
        assert(s@.take(i + 1).drop_last() == s@.take(i as int));
        assert(s@.take(i + 1).last() == c);
        if is_whitespace_char(c) {
            let piece = s.substring_char(start, i);
            proof {
                done.lemma_filter_push(piece@, pred);
                done = done.push(s@.subrange(start as int, i as int));
            }
            if i > start {
                res.push(piece);
            }
            assert(strs_view(res@) == done.filter(pred));
            start = i + 1;
            assert(s@.subrange(start as int, i + 1) =~= Seq::<char>::empty());
        } else {
            assert(s@.subrange(start as int, i + 1) =~= s@.subrange(start as int, i as int).push(c));
        }
        i = i + 1;
    }
    assert(s@.take(n as int) == s@);
    let last = s.substring_char(start, n);
    proof {
        done.lemma_filter_push(last@, pred);
    }
    if n > start {
        res.push(last);
    }
    assert(strs_view(res@) == done.push(last@).filter(pred));
    res
}

/// `String::push`, which appends one character to the end of a string.
#[verifier::external_body]
pub(crate) fn push_char(s: &mut String, c: char)
    ensures
        final(s)@ == old(s)@.push(c),
{
    s.push(c);
}

/// The ASCII digit for `d`, for `d` in `0..10`.
pub open spec fn digit_char(d: int) -> char {
    (48 + d) as char
}

/// The decimal digits of `n`, most significant first, without leading zeros.
pub open spec fn nat_decimal(n: nat) -> Seq<char>
    decreases n,
{
    if n < 10 {
        seq![digit_char(n as int)]
    } else {
        nat_decimal(n / 10).push(digit_char((n % 10) as int))
    }
}

/// The decimal form of `i`: a minus sign for negative numbers, then the digits
/// of its magnitude.
pub open spec fn int_decimal(i: int) -> Seq<char> {
    if i < 0 {
        seq!['-'] + nat_decimal((-i) as nat)
    } else {
        nat_decimal(i as nat)
    }
}

fn digit(d: u64) -> (c: char)
    requires
        d < 10,
    ensures
        c == digit_char(d as int),
{
    let b: u8 = 48 + d as u8;
    b as char
}

fn push_decimal(s: &mut String, m: u64)
    ensures
        final(s)@ == old(s)@ + nat_decimal(m as nat),
    decreases m,
{
    if m >= 10 {
        push_decimal(s, m / 10);
    }
    let c = digit(m % 10);
    push_char(s, c);
    proof {
        if m < 10 {
            assert(nat_decimal(m as nat) == seq![digit_char(m as int)]);
        }
    }
    assert(s@ =~= old(s)@ + nat_decimal(m as nat));
}

/// The decimal form of an unsigned number.
pub fn u64_to_string(m: u64) -> (s: String)
    ensures
        s@ == nat_decimal(m as nat),
{
    let mut s = String::new();
    push_decimal(&mut s, m);
    assert(s@ =~= nat_decimal(m as nat));
    s
}

/// The decimal form of a signed number.
pub fn i64_to_string(n: i64) -> (s: String)
    ensures
        s@ == int_decimal(n as int),
{
    let mut s = String::new();
    if n < 0 {
        push_char(&mut s, '-');
        let m: u64 = ((-(n + 1)) as u64) + 1;
        push_decimal(&mut s, m);
    } else {
        push_decimal(&mut s, n as u64);
    }
    assert(s@ =~= int_decimal(n as int));
    s
}

pub open spec fn is_digit(c: char) -> bool {
    48 <= c as u32 <= 57
}

pub open spec fn all_digits(d: Seq<char>) -> bool {
    forall|i: int| 0 <= i < d.len() ==> is_digit(#[trigger] d[i])
}

/// The number that a string of decimal digits denotes.
pub open spec fn digits_value(d: Seq<char>) -> nat
    decreases d.len(),
{
    if d.len() == 0 {
        0
    } else {
        digits_value(d.drop_last()) * 10 + ((d.last() as u32) - 48) as nat
    }
}

/// What `str::parse::<i64>` gives: an optional `+` or `-` followed by one or
/// more ASCII digits, whose value must lie in the range of `i64`.
pub open spec fn parse_i64_spec(s: Seq<char>) -> Option<i64> {
    let neg = s.len() > 0 && s[0] == '-';
    let body = if s.len() > 0 && (s[0] == '-' || s[0] == '+') {
        s.skip(1)
    } else {
        s
    };
    let v: int = if neg {
        -digits_value(body)
    } else {
        digits_value(body) as int
    };
    if body.len() > 0 && all_digits(body) && i64::MIN <= v <= i64::MAX {
        Some(v as i64)
    } else {
        None
    }
}

proof fn lemma_digits_value_grows(d: Seq<char>, k: int)
    requires
        0 <= k <= d.len(),
        all_digits(d),
    ensures
        digits_value(d.take(k)) <= digits_value(d),
    decreases d.len() - k,
{
    if k < d.len() {
        lemma_digits_value_grows(d, k + 1);
        assert(d.take(k + 1).drop_last() =~= d.take(k));
    } else {
        assert(d.take(k) =~= d);
    }
}

/// Parses a decimal integer as `str::parse::<i64>` does.
pub fn parse_i64(s: &str) -> (res: Option<i64>)
    ensures
        res == parse_i64_spec(s@),
{
    let chars = chars_of(s);
    let n = chars.len();
    let neg = n > 0 && chars[0] == '-';
    let start: usize = if n > 0 && (chars[0] == '-' || chars[0] == '+') {
        1
    } else {
        0
    };
    let ghost body = if n > 0 && (s@[0] == '-' || s@[0] == '+') {
        s@.skip(1)
    } else {
        s@
    };
    assert(body =~= s@.skip(start as int));
    if start >= n {
        return None;
    }
    // Magnitudes above this bound fit in neither sign.
    let bound: u64 = 9223372036854775808;
    let mut acc: u64 = 0;
    let mut i: usize = start;
    while i < n
        invariant
            chars@ == s@,
            n == s@.len(),
            start <= i <= n,
            body == s@.skip(start as int),
            all_digits(body.take(i - start)),
            acc == digits_value(body.take(i - start)),
            bound == 9223372036854775808u64,
            acc <= bound,
            neg == (n > 0 && s@[0] == '-'),
            body == (if n > 0 && (s@[0] == '-' || s@[0] == '+') { s@.skip(1) } else { s@ }),
        decreases n - i,
    {
        let c = chars[i];
        assert(body[i - start] == c);
        assert(body.take(i - start + 1).drop_last() =~= body.take(i - start));
        assert(body.take(i - start + 1).last() == c);
        let u = c as u32;
        if u < 48 || u > 57 {
            assert(!is_digit(body[i - start]));
            return None;
        }
        let d: u64 = (u - 48) as u64;
        assert(digits_value(body.take(i - start + 1)) == acc * 10 + d);
        if acc > (bound - d) / 10 {
            proof {
                assert(digits_value(body.take(i - start + 1)) > bound);
                if all_digits(body) {
                    lemma_digits_value_grows(body, i - start + 1);
                }
            }
            return None;
        }
        acc = acc * 10 + d;
        i = i + 1;
    }
    assert(body.take(n - start) =~= body);
    if neg {
        if acc == bound {
            Some(-9223372036854775807i64 - 1)
        } else {
            Some(-(acc as i64))
        }
    } else if acc == bound {
        None
    } else {
        Some(acc as i64)
    }
}

proof fn lemma_nat_decimal_digits(m: nat)
    ensures
        nat_decimal(m).len() >= 1,
        all_digits(nat_decimal(m)),
        digits_value(nat_decimal(m)) == m,
    decreases m,
{
    let d = nat_decimal(m);
    if m < 10 {
        assert(d.drop_last() =~= Seq::<char>::empty());
        assert(digit_char(m as int) as u32 == 48 + m);
        assert(d.last() == digit_char(m as int));
        assert(digits_value(d.drop_last()) == 0);
    } else {
        lemma_nat_decimal_digits(m / 10);
        assert(d.drop_last() =~= nat_decimal(m / 10));
        assert(digit_char((m % 10) as int) as u32 == 48 + m % 10);
        assert(d.last() == digit_char((m % 10) as int));
        assert(digits_value(d) == digits_value(nat_decimal(m / 10)) * 10 + m % 10);
        assert(m == (m / 10) * 10 + m % 10);
        assert forall|i: int| 0 <= i < d.len() implies is_digit(#[trigger] d[i]) by {
            if i < d.len() - 1 {
                assert(d[i] == nat_decimal(m / 10)[i]);
            }
        }
    }
}

/// Reading back the decimal form of a number gives the number: parsing what
/// `i64_to_string` writes yields `Some` of the number written.
pub proof fn lemma_parse_i64_of_decimal(n: i64)
    ensures
        parse_i64_spec(int_decimal(n as int)) == Some(n),
{
    let s = int_decimal(n as int);
    if n < 0 {
        let m = (-(n as int)) as nat;
        lemma_nat_decimal_digits(m);
        assert(s.skip(1) =~= nat_decimal(m));
        assert(s[0] == '-');
    } else {
        lemma_nat_decimal_digits(n as nat);
        let d = nat_decimal(n as nat);
        assert(is_digit(d[0]));
    }
}

/// The pieces of `list` with `sep` between each two of them.
pub open spec fn seq_join(list: Seq<Seq<char>>, sep: Seq<char>) -> Seq<char>
    decreases list.len(),
{
    if list.len() == 0 {
        Seq::empty()
    } else if list.len() == 1 {
        list[0]
    } else {
        seq_join(list.drop_last(), sep) + sep + list.last()
    }
}

/// The slices of `list` with `sep` between each two of them.
pub fn join(list: &Vec<&str>, sep: &str) -> (res: String)
    ensures
        res@ == seq_join(strs_view(list@), sep@),
{
    let mut res = String::new();
    let ghost lv = strs_view(list@);
    let mut i: usize = 0;
    assert(lv.take(0) =~= Seq::<Seq<char>>::empty());
    while i < list.len()
        invariant
            i <= list@.len(),
            lv == strs_view(list@),
            res@ == seq_join(lv.take(i as int), sep@),
        decreases list.len() - i,
    {
        assert(lv.take(i + 1).drop_last() =~= lv.take(i as int));
        assert(lv.take(i + 1).last() == list@[i as int]@);
        if i > 0 {
            res.append(sep);
        } else {
            assert(lv.take(1) =~= seq![list@[0]@]);
            assert(res@ =~= Seq::<char>::empty());
        }
        res.append(list[i]);
        assert(res@ =~= seq_join(lv.take(i + 1), sep@));
        i = i + 1;
    }
    assert(lv.take(list@.len() as int) =~= lv);
    res
}

/// Whether two string slices hold the same characters.
pub fn str_eq(a: &str, b: &str) -> (res: bool)
    ensures
        res == (a@ == b@),
{
    let x = String::from_str(a);
    let y = String::from_str(b);
    x == y
}

} // verus!

verus! {

/// Two texts that differ only in which whitespace characters stand where are
/// split into the same pieces.
proof fn lemma_split_ignores_which_whitespace(s: Seq<char>, t: Seq<char>)
    requires
        s.len() == t.len(),
        forall|i: int| 0 <= i < s.len() ==> is_white_space(#[trigger] s[i]) == is_white_space(t[i]),
        forall|i: int| 0 <= i < s.len() && !is_white_space(#[trigger] s[i]) ==> s[i] == t[i],
    ensures
        split_at_white_space(s) == split_at_white_space(t),
    decreases s.len(),
{
    if s.len() > 0 {
        let s0 = s.drop_last();
        let t0 = t.drop_last();
        assert forall|i: int| 0 <= i < s0.len() implies is_white_space(#[trigger] s0[i]) == is_white_space(t0[i]) by {
            assert(s0[i] == s[i] && t0[i] == t[i]);
        }
        assert forall|i: int| 0 <= i < s0.len() && !is_white_space(#[trigger] s0[i]) implies s0[i] == t0[i] by {
            assert(s0[i] == s[i] && t0[i] == t[i]);
        }
        lemma_split_ignores_which_whitespace(s0, t0);
        assert(s.last() == s[s.len() - 1] && t.last() == t[t.len() - 1]);
    }
}

/// A carriage return separates words just as a line feed does (both are
/// Unicode whitespace): whatever stands around it, replacing one by the
/// other leaves the words of a text unchanged.
pub proof fn lemma_carriage_return_splits_words(a: Seq<char>, b: Seq<char>)
    ensures
        is_white_space('\r'),
        is_white_space('\n'),
        words(a + seq!['\r'] + b) == words(a + seq!['\n'] + b),
{
    let s = a + seq!['\r'] + b;
    let t = a + seq!['\n'] + b;
    assert('\r' as u32 == 13);
    assert('\n' as u32 == 10);
    assert forall|i: int| 0 <= i < s.len() implies is_white_space(#[trigger] s[i]) == is_white_space(t[i]) && (
    !is_white_space(s[i]) ==> s[i] == t[i]) by {
        if i < a.len() {
            assert(s[i] == a[i] && t[i] == a[i]);
        } else if i == a.len() {
            assert(s[i] == '\r' && t[i] == '\n');
        } else {
            assert(s[i] == b[i - a.len() - 1] && t[i] == b[i - a.len() - 1]);
        }
    }
    lemma_split_ignores_which_whitespace(s, t);
}

/// The characters that separate words are exactly the Unicode `White_Space`
/// characters: the ASCII tab, line feed, vertical tab, form feed, carriage
/// return and space, the next line and no-break space, the Ogham space mark,
/// the spaces from en quad to hair space, the line and paragraph separators,
/// the narrow no-break space, the medium mathematical space and the
/// ideographic space. Their neighbours, and the zero-width space and
/// byte-order mark, are not whitespace.
pub proof fn lemma_white_space_members()
    ensures
        is_white_space('\t'),
        is_white_space('\n'),
        is_white_space('\u{0B}'),
        is_white_space('\u{0C}'),
        is_white_space('\r'),
        is_white_space(' '),
        is_white_space('\u{85}'),
        is_white_space('\u{A0}'),
        is_white_space('\u{1680}'),
        forall|c: char| 0x2000 <= c as u32 <= 0x200A ==> #[trigger] is_white_space(c),
        is_white_space('\u{2028}'),
        is_white_space('\u{2029}'),
        is_white_space('\u{202F}'),
        is_white_space('\u{205F}'),
        is_white_space('\u{3000}'),
        !is_white_space('\u{08}'),
        !is_white_space('\u{0E}'),
        !is_white_space('\u{1F}'),
        !is_white_space('!'),
        !is_white_space('a'),
        !is_white_space('\u{84}'),
        !is_white_space('\u{200B}'),
        !is_white_space('\u{FEFF}'),
        !is_white_space('\u{3001}'),
{
    assert('\t' as u32 == 0x09);
    assert('\n' as u32 == 0x0A);
    assert('\u{0B}' as u32 == 0x0B);
    assert('\u{0C}' as u32 == 0x0C);
    assert('\r' as u32 == 0x0D);
    assert(' ' as u32 == 0x20);
    assert('\u{08}' as u32 == 0x08);
    assert('\u{0E}' as u32 == 0x0E);
}

/// `w` holds no whitespace.
pub open spec fn no_white_space(w: Seq<char>) -> bool {
    forall|i: int| 0 <= i < w.len() ==> !is_white_space(#[trigger] w[i])
}

proof fn lemma_split_of_word(w: Seq<char>)
    requires
        no_white_space(w),
    ensures
        split_at_white_space(w) == seq![w],
    decreases w.len(),
{
    if w.len() > 0 {
        let w0 = w.drop_last();
        assert forall|i: int| 0 <= i < w0.len() implies !is_white_space(#[trigger] w0[i]) by {
            assert(w0[i] == w[i]);
        }
        lemma_split_of_word(w0);
        assert(!is_white_space(w[w.len() - 1]));
        assert(w0.push(w.last()) =~= w);
        assert(seq![w0].update(0, w0.push(w.last())) =~= seq![w]);
    } else {
        assert(w =~= Seq::<char>::empty());
    }
}

proof fn lemma_split_has_pieces(s: Seq<char>)
    ensures
        split_at_white_space(s).len() >= 1,
    decreases s.len(),
{
    if s.len() > 0 {
        lemma_split_has_pieces(s.drop_last());
    }
}

proof fn lemma_split_after_word(w: Seq<char>, c: char, r: Seq<char>)
    requires
        no_white_space(w),
        is_white_space(c),
    ensures
        split_at_white_space(w + seq![c] + r) == seq![w] + split_at_white_space(r),
    decreases r.len(),
{
    let s = w + seq![c] + r;
    if r.len() == 0 {
        lemma_split_of_word(w);
        assert(s.drop_last() =~= w);
        assert(s.last() == c);
        assert(r =~= Seq::<char>::empty());
        assert(seq![w].push(Seq::<char>::empty()) =~= seq![w] + seq![Seq::<char>::empty()]);
    } else {
        let r0 = r.drop_last();
        lemma_split_after_word(w, c, r0);
        assert(s.drop_last() =~= w + seq![c] + r0);
        assert(s.last() == r.last());
        let rest = split_at_white_space(r0);
        lemma_split_has_pieces(r0);
        if is_white_space(r.last()) {
            assert((seq![w] + rest).push(Seq::<char>::empty()) =~= seq![w] + rest.push(Seq::<char>::empty()));
        } else {
            let both = seq![w] + rest;
            assert(both.update(both.len() - 1, both.last().push(r.last())) =~= seq![w] + rest.update(
                rest.len() - 1,
                rest.last().push(r.last()),
            ));
        }
    }
}

/// The words of a text that starts with the word `w` are `w`, then the words
/// of what follows the whitespace after it; a text that is a single word
/// has that word alone.
pub proof fn lemma_words_after_word(w: Seq<char>, c: char, r: Seq<char>)
    requires
        w.len() > 0,
        no_white_space(w),
        is_white_space(c),
    ensures
        words(w) == seq![w],
        words(w + seq![c] + r) == seq![w] + words(r),
{
    let keep = |x: Seq<char>| non_empty(x);
    lemma_split_of_word(w);
    lemma_split_after_word(w, c, r);
    assert(seq![w].drop_last() =~= Seq::<Seq<char>>::empty());
    assert(seq![w].filter(keep) =~= seq![w]) by {
        reveal_with_fuel(Seq::<Seq<char>>::filter, 2);
        assert(keep(w));
    }
    Seq::filter_distributes_over_add(seq![w], split_at_white_space(r), keep);
}

} // verus!
