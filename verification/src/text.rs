//! Character-level string operations with their mathematical meaning:
//! searching, splitting, replacing and joining, as `str::find`,
//! `str::split`, `str::replace` and `[String]::join` do them.

use vstd::prelude::*;

verus! {

/// `p` occurs in `s` starting at index `i`.
pub open spec fn matches_at(s: Seq<char>, i: int, p: Seq<char>) -> bool {
    0 <= i && i + p.len() <= s.len() && s.subrange(i, i + p.len()) == p
}

/// The index of the first occurrence of `p` in `s`, if any.
#[verifier::opaque]
pub open spec fn find_str(s: Seq<char>, p: Seq<char>) -> Option<int> {
    if exists|i: int| matches_at(s, i, p) {
        Some(choose|i: int| matches_at(s, i, p) && forall|j: int| 0 <= j < i ==> !matches_at(s, j, p))
    } else {
        None
    }
}

/// The pieces of `s` between the non-overlapping occurrences of the non-empty
/// pattern `p`, found from left to right.
#[verifier::opaque]
pub open spec fn split_str(s: Seq<char>, p: Seq<char>) -> Seq<Seq<char>>
    decreases s.len(),
{
    if p.len() == 0 {
        seq![s]
    } else {
        match find_str(s, p) {
            None => seq![s],
            Some(i) => if 0 <= i && i + p.len() <= s.len() {
                seq![s.take(i)] + split_str(s.skip(i + p.len()), p)
            } else {
                seq![s]
            },
        }
    }
}

/// `s` with every non-overlapping occurrence of the non-empty `from`,
/// found from left to right, replaced by `to`.
#[verifier::opaque]
pub open spec fn replace_str(s: Seq<char>, from: Seq<char>, to: Seq<char>) -> Seq<char>
    decreases s.len(),
{
    if from.len() == 0 {
        s
    } else {
        match find_str(s, from) {
            None => s,
            Some(i) => if 0 <= i && i + from.len() <= s.len() {
                s.take(i) + to + replace_str(s.skip(i + from.len()), from, to)
            } else {
                s
            },
        }
    }
}

/// The parts put together with `sep` between each two of them.
pub open spec fn join(parts: Seq<Seq<char>>, sep: Seq<char>) -> Seq<char>
    decreases parts.len(),
{
    if parts.len() == 0 {
        Seq::empty()
    } else if parts.len() == 1 {
        parts[0]
    } else {
        join(parts.drop_last(), sep) + sep + parts.last()
    }
}

/// The first occurrence is a match, and no earlier index is.
pub proof fn lemma_find_str_first(s: Seq<char>, p: Seq<char>, i: int)
    requires
        matches_at(s, i, p),
        forall|j: int| 0 <= j < i ==> !matches_at(s, j, p),
    ensures
        find_str(s, p) == Some(i),
{
    reveal(find_str);
    let k = choose|k: int| matches_at(s, k, p) && forall|j: int| 0 <= j < k ==> !matches_at(s, j, p);
    assert(matches_at(s, k, p));
    if k < i {
        assert(!matches_at(s, k, p));
    }
    if i < k {
        assert(!matches_at(s, i, p));
    }
}

/// A first occurrence exists wherever some occurrence does.
pub proof fn lemma_find_str_some(s: Seq<char>, p: Seq<char>, i: int)
    requires
        matches_at(s, i, p),
    ensures
        find_str(s, p) is Some,
{
    reveal(find_str);
}

/// The first occurrence is an occurrence, and none comes before it.
pub proof fn lemma_find_str_facts(s: Seq<char>, p: Seq<char>)
    ensures
        match find_str(s, p) {
            Some(i) => matches_at(s, i, p) && forall|j: int| 0 <= j < i ==> !matches_at(s, j, p),
            None => forall|j: int| !matches_at(s, j, p),
        },
{
    reveal(find_str);
    if exists|i: int| matches_at(s, i, p) {
        let w = choose|i: int| matches_at(s, i, p);
        lemma_least_match(s, p, w);
    }
}

/// Among the occurrences there is a first one.
proof fn lemma_least_match(s: Seq<char>, p: Seq<char>, w: int)
    requires
        matches_at(s, w, p),
    ensures
        exists|i: int| matches_at(s, i, p) && forall|j: int| 0 <= j < i ==> !matches_at(s, j, p),
    decreases w,
{
    if exists|j: int| 0 <= j < w && matches_at(s, j, p) {
        let j = choose|j: int| 0 <= j < w && matches_at(s, j, p);
        lemma_least_match(s, p, j);
    } else {
        assert(forall|j: int| 0 <= j < w ==> !matches_at(s, j, p));
    }
}

/// Without any match, there is no first occurrence.
pub proof fn lemma_find_str_none(s: Seq<char>, p: Seq<char>)
    requires
        forall|j: int| 0 <= j ==> !matches_at(s, j, p),
    ensures
        find_str(s, p) is None,
{
    reveal(find_str);
}

/// Matching in a suffix is matching in the whole, shifted.
pub proof fn lemma_matches_skip(s: Seq<char>, k: int, i: int, p: Seq<char>)
    requires
        0 <= k <= s.len(),
        0 <= i,
    ensures
        matches_at(s.skip(k), i, p) == matches_at(s, i + k, p),
{
    if matches_at(s.skip(k), i, p) {
        assert(s.skip(k).subrange(i, i + p.len()) =~= s.subrange(i + k, i + k + p.len()));
    }
    if matches_at(s, i + k, p) {
        assert(s.skip(k).subrange(i, i + p.len()) =~= s.subrange(i + k, i + k + p.len()));
    }
}

/// Splitting a suffix whose first match is at `j`.
pub proof fn lemma_split_step(s: Seq<char>, start: int, j: int, p: Seq<char>)
    requires
        p.len() > 0,
        0 <= start <= j,
        find_str(s.skip(start), p) == Some(j - start),
        matches_at(s, j, p),
    ensures
        split_str(s.skip(start), p) == seq![s.subrange(start, j)] + split_str(s.skip(j + p.len()), p),
{
    reveal(split_str);
    let rest = s.skip(start);
    assert(rest.take(j - start) =~= s.subrange(start, j));
    assert(rest.skip(j - start + p.len()) =~= s.skip(j + p.len()));
}

/// Splitting a suffix without a match gives the suffix alone.
pub proof fn lemma_split_last(s: Seq<char>, start: int, p: Seq<char>)
    requires
        0 <= start <= s.len(),
        find_str(s.skip(start), p) is None,
    ensures
        split_str(s.skip(start), p) == seq![s.skip(start)],
{
    reveal(split_str);
}

/// Replacing in a suffix whose first match is at `j`.
pub proof fn lemma_replace_step(s: Seq<char>, start: int, j: int, from: Seq<char>, to: Seq<char>)
    requires
        from.len() > 0,
        0 <= start <= j,
        find_str(s.skip(start), from) == Some(j - start),
        matches_at(s, j, from),
    ensures
        replace_str(s.skip(start), from, to) == s.subrange(start, j) + to + replace_str(
            s.skip(j + from.len()),
            from,
            to,
        ),
{
    reveal(replace_str);
    let rest = s.skip(start);
    assert(rest.take(j - start) =~= s.subrange(start, j));
    assert(rest.skip(j - start + from.len()) =~= s.skip(j + from.len()));
}

/// Replacing in a suffix without a match leaves it as it is.
pub proof fn lemma_replace_last(s: Seq<char>, start: int, from: Seq<char>, to: Seq<char>)
    requires
        0 <= start <= s.len(),
        find_str(s.skip(start), from) is None,
    ensures
        replace_str(s.skip(start), from, to) == s.skip(start),
{
    reveal(replace_str);
}

/// Splitting always gives at least one piece.
pub proof fn lemma_split_nonempty(s: Seq<char>, p: Seq<char>)
    ensures
        split_str(s, p).len() >= 1,
{
    reveal(split_str);
    if p.len() > 0 {
        match find_str(s, p) {
            Some(i) => {
                if 0 <= i && i + p.len() <= s.len() {
                    assert((seq![s.take(i)] + split_str(s.skip(i + p.len()), p)).len() >= 1);
                }
            },
            None => {},
        }
    }
}

/// The characters of `s` from `from` up to `to`, as a new string.
pub fn substring(s: &str, from: usize, to: usize) -> (r: String)
    requires
        from <= to <= s@.len(),
    ensures
        r@ == s@.subrange(from as int, to as int),
{
    String::from_str(s.substring_char(from, to))
}

/// Whether `p` occurs in `s` at index `i`.
pub fn matches_at_exec(s: &str, slen: usize, i: usize, p: &str, plen: usize) -> (r: bool)
    requires
        slen == s@.len(),
        plen == p@.len(),
    ensures
        r == matches_at(s@, i as int, p@),
{
    if i > slen || plen > slen - i {
        return false;
    }
    let mut k: usize = 0;
    while k < plen
        invariant
            i + plen <= slen,
            slen == s@.len(),
            plen == p@.len(),
            k <= plen,
            forall|m: int| 0 <= m < k ==> s@[i + m] == p@[m],
        decreases plen - k,
    {
        if s.get_char(i + k) != p.get_char(k) {
            assert(s@.subrange(i as int, i + plen)[k as int] != p@[k as int]);
            return false;
        }
        k = k + 1;
    }
    assert(s@.subrange(i as int, i + plen) =~= p@);
    true
}

/// The index of the first occurrence of `p` in `s` at or after `from`.
pub fn find_from(s: &str, slen: usize, from: usize, p: &str, plen: usize) -> (r: Option<usize>)
    requires
        slen == s@.len(),
        plen == p@.len(),
        from <= slen,
    ensures
        match r {
            Some(j) => from <= j && matches_at(s@, j as int, p@) && forall|m: int|
                from <= m < j ==> !matches_at(s@, m, p@),
            None => forall|m: int| from <= m ==> !matches_at(s@, m, p@),
        },
{
    let mut j = from;
    while j <= slen
        invariant
            slen == s@.len(),
            plen == p@.len(),
            from <= j,
            forall|m: int| from <= m < j ==> !matches_at(s@, m, p@),
        decreases slen + 1 - j,
    {
        if matches_at_exec(s, slen, j, p, plen) {
            return Some(j);
        }
        if j == slen {
            return None;
        }
        j = j + 1;
    }
    None
}

/// `str::find` by characters: the first index at which `p` occurs in `s`.
pub fn find(s: &str, p: &str) -> (r: Option<usize>)
    ensures
        match r {
            Some(j) => find_str(s@, p@) == Some(j as int) && matches_at(s@, j as int, p@),
            None => find_str(s@, p@) is None,
        },
{
    let slen = s.unicode_len();
    let plen = p.unicode_len();
    let r = find_from(s, slen, 0, p, plen);
    proof {
        match r {
            Some(j) => lemma_find_str_first(s@, p@, j as int),
            None => lemma_find_str_none(s@, p@),
        }
    }
    r
}

/// The first occurrence in the suffix from `start` is the one found from `start`.
proof fn lemma_find_in_suffix(s: Seq<char>, start: int, p: Seq<char>, found: Option<int>)
    requires
        0 <= start <= s.len(),
        match found {
            Some(j) => start <= j && matches_at(s, j, p) && forall|m: int|
                start <= m < j ==> !matches_at(s, m, p),
            None => forall|m: int| start <= m ==> !matches_at(s, m, p),
        },
    ensures
        find_str(s.skip(start), p) == match found {
            Some(j) => Some(j - start),
            None => None::<int>,
        },
{
    match found {
        Some(j) => {
            lemma_matches_skip(s, start, j - start, p);
            assert(matches_at(s.skip(start), j - start, p));
            assert forall|m: int| 0 <= m < j - start implies !matches_at(s.skip(start), m, p) by {
                lemma_matches_skip(s, start, m, p);
            }
            lemma_find_str_first(s.skip(start), p, j - start);
        },
        None => {
            assert forall|m: int| 0 <= m implies !matches_at(s.skip(start), m, p) by {
                lemma_matches_skip(s, start, m, p);
            }
            lemma_find_str_none(s.skip(start), p);
        },
    }
}

/// `str::split` with a non-empty string pattern, collected.
pub fn split(s: &str, p: &str) -> (r: Vec<String>)
    requires
        p@.len() > 0,
    ensures
        r.deep_view() == split_str(s@, p@),
{
    let slen = s.unicode_len();
    let plen = p.unicode_len();
    let mut pieces: Vec<String> = Vec::new();
    let mut start: usize = 0;
    assert(s@.skip(0) =~= s@);
    assert(pieces.deep_view() + split_str(s@, p@) =~= split_str(s@, p@));
    loop
        invariant
            slen == s@.len(),
            plen == p@.len(),
            plen > 0,
            start <= slen,
            pieces.deep_view() + split_str(s@.skip(start as int), p@) == split_str(s@, p@),
        decreases slen - start,
    {
        let found = find_from(s, slen, start, p, plen);
        proof {
            lemma_find_in_suffix(s@, start as int, p@, match found {
                Some(j) => Some(j as int),
                None => None,
            });
        }
        match found {
            None => {
                proof { lemma_split_last(s@, start as int, p@); }
                let last = substring(s, start, slen);
                assert(last@ =~= s@.skip(start as int));
                pieces.push(last);
                assert(pieces.deep_view() =~= split_str(s@, p@));
                return pieces;
            },
            Some(j) => {
                proof { lemma_split_step(s@, start as int, j as int, p@); }
                let piece = substring(s, start, j);
                let ghost old_pieces = pieces.deep_view();
                pieces.push(piece);
                assert(pieces.deep_view() =~= old_pieces.push(piece@));
                assert(pieces.deep_view() + split_str(s@.skip(j + plen), p@) =~= old_pieces
                    + split_str(s@.skip(start as int), p@));
                start = j + plen;
            },
        }
    }
}

/// `str::replace` with a non-empty pattern.
pub fn replace(s: &str, from: &str, to: &str) -> (r: String)
    requires
        from@.len() > 0,
    ensures
        r@ == replace_str(s@, from@, to@),
{
    let slen = s.unicode_len();
    let flen = from.unicode_len();
    let mut out = String::new();
    let mut start: usize = 0;
    assert(s@.skip(0) =~= s@);
    assert(out@ + replace_str(s@, from@, to@) =~= replace_str(s@, from@, to@));
    loop
        invariant
            slen == s@.len(),
            flen == from@.len(),
            flen > 0,
            start <= slen,
            out@ + replace_str(s@.skip(start as int), from@, to@) == replace_str(s@, from@, to@),
        decreases slen - start,
    {
        let found = find_from(s, slen, start, from, flen);
        proof {
            lemma_find_in_suffix(s@, start as int, from@, match found {
                Some(j) => Some(j as int),
                None => None,
            });
        }
        match found {
            None => {
                proof { lemma_replace_last(s@, start as int, from@, to@); }
                out.append(s.substring_char(start, slen));
                assert(s@.subrange(start as int, slen as int) =~= s@.skip(start as int));
                assert(out@ =~= replace_str(s@, from@, to@));
                return out;
            },
            Some(j) => {
                proof { lemma_replace_step(s@, start as int, j as int, from@, to@); }
                let ghost old_out = out@;
                out.append(s.substring_char(start, j));
                out.append(to);
                assert(out@ + replace_str(s@.skip(j + flen), from@, to@) =~= old_out
                    + replace_str(s@.skip(start as int), from@, to@));
                start = j + flen;
            },
        }
    }
}

/// `[String]::join`: the parts with `sep` between each two of them.
pub fn join_strings(parts: &Vec<String>, sep: &str) -> (r: String)
    ensures
        r@ == join(parts.deep_view(), sep@),
{
    let mut out = String::new();
    let mut i: usize = 0;
    while i < parts.len()
        invariant
            i <= parts.len(),
            out@ == join(parts.deep_view().take(i as int), sep@),
        decreases parts.len() - i,
    {
        let ghost before = parts.deep_view().take(i as int);
        if i > 0 {
            out.append(sep);
        }
        out.append(parts[i].as_str());
        assert(parts.deep_view().take(i + 1).drop_last() =~= before);
        i = i + 1;
    }
    assert(parts.deep_view().take(parts.len() as int) =~= parts.deep_view());
    out
}

/// The digit character of a number below ten.
pub open spec fn digit_char(d: nat) -> char {
    if d == 0 { '0' } else if d == 1 { '1' } else if d == 2 { '2' } else if d == 3 { '3' }
    else if d == 4 { '4' } else if d == 5 { '5' } else if d == 6 { '6' } else if d == 7 { '7' }
    else if d == 8 { '8' } else { '9' }
}

/// The number a digit character stands for.
pub open spec fn digit_value(c: char) -> nat {
    if c == '0' { 0 } else if c == '1' { 1 } else if c == '2' { 2 } else if c == '3' { 3 }
    else if c == '4' { 4 } else if c == '5' { 5 } else if c == '6' { 6 } else if c == '7' { 7 }
    else if c == '8' { 8 } else { 9 }
}

pub open spec fn is_digit(c: char) -> bool {
    '0' <= c <= '9'
}

/// The decimal text of `n`.
pub open spec fn decimal(n: nat) -> Seq<char>
    decreases n,
{
    if n < 10 {
        seq![digit_char(n)]
    } else {
        decimal(n / 10).push(digit_char(n % 10))
    }
}

/// The value of a string of decimal digits.
pub open spec fn digits_value(d: Seq<char>) -> nat
    decreases d.len(),
{
    if d.len() == 0 {
        0
    } else {
        digits_value(d.drop_last()) * 10 + digit_value(d.last())
    }
}

/// The text is an integer: an optional minus sign and at least one digit.
pub open spec fn is_int_text(t: Seq<char>) -> bool {
    int_digits(t).len() > 0 && forall|i: int|
        0 <= i < int_digits(t).len() ==> is_digit(#[trigger] int_digits(t)[i])
}

/// The digits of an integer text, after its sign.
pub open spec fn int_digits(t: Seq<char>) -> Seq<char> {
    if t.len() > 0 && t[0] == '-' {
        t.skip(1)
    } else {
        t
    }
}

/// The value of an integer text.
pub open spec fn int_value(t: Seq<char>) -> int {
    if t.len() > 0 && t[0] == '-' {
        -digits_value(int_digits(t))
    } else {
        digits_value(int_digits(t)) as int
    }
}

/// A longer string of digits is worth at least as much.
pub proof fn lemma_digits_value_prefix(d: Seq<char>, k: int)
    requires
        0 <= k <= d.len(),
    ensures
        digits_value(d.take(k)) <= digits_value(d),
    decreases d.len(),
{
    if k < d.len() {
        lemma_digits_value_prefix(d.drop_last(), k);
        assert(d.drop_last().take(k) =~= d.take(k));
    } else {
        assert(d.take(k) =~= d);
    }
}

/// The text of a digit.
fn digit_text(d: u128) -> (r: String)
    requires
        d < 10,
    ensures
        r@ == seq![digit_char(d as nat)],
{
    proof {
        reveal_strlit("0");
        reveal_strlit("1");
        reveal_strlit("2");
        reveal_strlit("3");
        reveal_strlit("4");
        reveal_strlit("5");
        reveal_strlit("6");
        reveal_strlit("7");
        reveal_strlit("8");
        reveal_strlit("9");
    }
    let lit = if d == 0 { "0" } else if d == 1 { "1" } else if d == 2 { "2" } else if d == 3 { "3" }
        else if d == 4 { "4" } else if d == 5 { "5" } else if d == 6 { "6" } else if d == 7 { "7" }
        else if d == 8 { "8" } else { "9" };
    assert(lit@ =~= seq![digit_char(d as nat)]);
    String::from_str(lit)
}

/// The decimal text of `n`.
pub fn decimal_text(n: u128) -> (r: String)
    ensures
        r@ == decimal(n as nat),
    decreases n,
{
    if n < 10 {
        digit_text(n)
    } else {
        let mut r = decimal_text(n / 10);
        let d = digit_text(n % 10);
        r.append(d.as_str());
        assert(r@ =~= decimal(n as nat));
        r
    }
}

/// Reads an integer text: `None` when `t` is not one; otherwise whether it is
/// negative, and its magnitude when that fits in a `u64`.
pub fn parse_int_text(t: &str) -> (r: Option<(bool, Option<u64>)>)
    ensures
        match r {
            None => !is_int_text(t@),
            Some((neg, mag)) => {
                &&& is_int_text(t@)
                &&& neg == (t@[0] == '-')
                &&& match mag {
                    Some(m) => m as int == (if neg { -int_value(t@) } else { int_value(t@) }),
                    None => (if neg { -int_value(t@) } else { int_value(t@) }) > u64::MAX,
                }
            },
        },
{
    let n = t.unicode_len();
    if n == 0 {
        return None;
    }
    let neg = t.get_char(0) == '-';
    let start: usize = if neg { 1 } else { 0 };
    let ghost digits = if neg { t@.skip(1) } else { t@ };
    assert(digits =~= t@.skip(start as int));
    if start == n {
        assert(neg && t@[0] == '-');
        assert(t@.skip(1).len() == 0);
        return None;
    }
    let mut i: usize = start;
    let mut acc: u64 = 0;
    let mut overflow = false;
    while i < n
        invariant
            n == t@.len(),
            start <= i <= n,
            start < n,
            digits == t@.skip(start as int),
            neg == (t@[0] == '-'),
            start == (if neg { 1usize } else { 0usize }),
            digits == int_digits(t@),
            forall|j: int| 0 <= j < i - start ==> is_digit(#[trigger] digits[j]),
            !overflow ==> acc as nat == digits_value(digits.take(i - start)),
            overflow ==> digits_value(digits.take(i - start)) > u64::MAX,
        decreases n - i,
    {
        let c = t.get_char(i);
        assert(c == digits[i - start]);
        if !('0' <= c && c <= '9') {
            assert(!is_digit(int_digits(t@)[i - start]));
            return None;
        }
        let ghost k = i - start;
        assert(digits.take(k + 1).drop_last() =~= digits.take(k));
        let d: u64 = if c == '0' { 0 } else if c == '1' { 1 } else if c == '2' { 2 } else if c == '3' { 3 }
            else if c == '4' { 4 } else if c == '5' { 5 } else if c == '6' { 6 } else if c == '7' { 7 }
            else if c == '8' { 8 } else { 9 };
        if !overflow {
            if acc > (u64::MAX - d) / 10 {
                overflow = true;
            } else {
                acc = acc * 10 + d;
            }
        }
        i = i + 1;
    }
    assert(digits.take(n - start) =~= digits);
    proof {
        if neg {
            assert(digits =~= t@.skip(1));
        }
    }
    Some((neg, if overflow { None } else { Some(acc) }))
}


/// Whitespace between JSON tokens.
pub open spec fn is_json_ws(c: char) -> bool {
    c == ' ' || c == '\t' || c == '\n' || c == '\r'
}

/// The length of `t` without its trailing JSON whitespace.
pub open spec fn trimmed_len(t: Seq<char>) -> nat
    decreases t.len(),
{
    if t.len() == 0 {
        0
    } else if is_json_ws(t.last()) {
        trimmed_len(t.drop_last())
    } else {
        t.len()
    }
}

/// The number of bytes that `c` takes in UTF-8.
pub open spec fn utf8_len(c: char) -> nat {
    if (c as u32) < 0x80 {
        1
    } else if (c as u32) < 0x800 {
        2
    } else if (c as u32) < 0x10000 {
        3
    } else {
        4
    }
}

/// The line and column of the place right after `t`, counted as
/// `serde_json` counts them: lines from 1, columns in bytes since the last
/// newline.
pub open spec fn line_col(t: Seq<char>) -> (nat, nat)
    decreases t.len(),
{
    if t.len() == 0 {
        (1, 0)
    } else {
        let lc = line_col(t.drop_last());
        if t.last() == '\n' {
            (lc.0 + 1, 0)
        } else {
            (lc.0, lc.1 + utf8_len(t.last()))
        }
    }
}

/// The position suffix of an error found right after the JSON value that
/// `text` holds: ` at line L column C`.
pub open spec fn end_position(text: Seq<char>) -> Seq<char> {
    let lc = line_col(text.take(trimmed_len(text) as int));
    " at line "@ + decimal(lc.0) + " column "@ + decimal(lc.1)
}

/// The length of `s` without its trailing JSON whitespace.
pub fn trimmed_len_exec(s: &str) -> (r: usize)
    ensures
        r == trimmed_len(s@),
        r <= s@.len(),
{
    let mut n: usize = s.unicode_len();
    assert(s@.take(n as int) =~= s@);
    loop
        invariant
            n <= s@.len(),
            trimmed_len(s@) == trimmed_len(s@.take(n as int)),
        ensures
            n <= s@.len(),
            trimmed_len(s@) == n,
        decreases n,
    {
        if n == 0 {
            break;
        }
        let c = s.get_char(n - 1);
        assert(s@.take(n as int).last() == c);
        if !(c == ' ' || c == '\t' || c == '\n' || c == '\r') {
            break;
        }
        assert(s@.take(n as int).drop_last() =~= s@.take(n - 1));
        n = n - 1;
    }
    n
}

fn utf8_len_exec(c: char) -> (r: u128)
    ensures
        r == utf8_len(c),
        r <= 4,
{
    let v = c as u32;
    if v < 0x80 {
        1
    } else if v < 0x800 {
        2
    } else if v < 0x10000 {
        3
    } else {
        4
    }
}

/// The position suffix ` at line L column C` of the place right after the
/// JSON value that `text` holds.
pub fn end_position_exec(text: &str) -> (r: String)
    ensures
        r@ == end_position(text@),
{
    let end = trimmed_len_exec(text);
    let mut line: u128 = 1;
    let mut col: u128 = 0;
    let mut i: usize = 0;
    while i < end
        invariant
            i <= end <= text@.len(),
            end == trimmed_len(text@),
            line_col(text@.take(i as int)) == (line as nat, col as nat),
            line <= i + 1,
            col <= 4 * i,
        decreases end - i,
    {
        let c = text.get_char(i);
        assert(text@.take(i + 1).drop_last() =~= text@.take(i as int));
        assert(text@.take(i + 1).last() == c);
        if c == '\n' {
            line = line + 1;
            col = 0;
        } else {
            col = col + utf8_len_exec(c);
        }
        i = i + 1;
    }
    let mut r = String::from_str(" at line ");
    let l = decimal_text(line);
    r.append(l.as_str());
    r.append(" column ");
    let c = decimal_text(col);
    r.append(c.as_str());
    proof {
        reveal_strlit(" at line ");
        reveal_strlit(" column ");
    }
    assert(r@ =~= end_position(text@));
    r
}


/// What `format!("{:?}", s)` gives for a string: `s` in double quotes, as
/// Rust's `Debug` for `str` writes it.
pub uninterp spec fn debug_quoted(s: Seq<char>) -> Seq<char>;

/// Formats `s` with `format!("{:?}", s)`, Rust's `Debug` for `str`: the text
/// in double quotes, with quotes, backslashes and the characters that Rust
/// does not count as printable escaped. The contract only names the result,
/// which depends on the text alone.
#[verifier::external_body]
pub(crate) fn debug_quoted_text(s: &str) -> (r: String)
    ensures
        r@ == debug_quoted(s@),
{
    format!("{:?}", s)
}


/// Splitting a text without the separator character gives the text alone.
pub proof fn lemma_split_no_sep(s: Seq<char>, c: char)
    requires
        !s.contains(c),
    ensures
        split_str(s, seq![c]) == seq![s],
{
    assert forall|j: int| 0 <= j implies !matches_at(s, j, seq![c]) by {
        if matches_at(s, j, seq![c]) {
            assert(s.subrange(j, j + 1)[0] == s[j]);
        }
    }
    lemma_find_str_none(s, seq![c]);
    assert(s.skip(0) =~= s);
    lemma_split_last(s, 0, seq![c]);
}

/// Splitting `a`, the separator, `b` (neither holding the separator) gives
/// `a` and `b`.
pub proof fn lemma_split_one_sep(a: Seq<char>, b: Seq<char>, c: char)
    requires
        !a.contains(c),
        !b.contains(c),
    ensures
        split_str(a + seq![c] + b, seq![c]) == seq![a, b],
{
    let s = a + seq![c] + b;
    let p = seq![c];
    let k = a.len() as int;
    assert(s.subrange(k, k + 1) =~= p);
    assert forall|j: int| 0 <= j < k implies !matches_at(s, j, p) by {
        if matches_at(s, j, p) {
            assert(s.subrange(j, j + 1)[0] == s[j]);
            assert(s[j] == a[j]);
        }
    }
    lemma_find_str_first(s, p, k);
    assert(s.skip(0) =~= s);
    lemma_split_step(s, 0, k, p);
    assert(s.subrange(0, k) =~= a);
    assert(s.skip(k + 1) =~= b);
    lemma_split_no_sep(b, c);
}

/// Replacing one character by another is replacing it at every place, and
/// nothing else changes.
pub proof fn lemma_replace_char(s: Seq<char>, a: char, b: char)
    ensures
        replace_str(s, seq![a], seq![b]) == s.map_values(|x: char| if x == a { b } else { x }),
    decreases s.len(),
{
    let p = seq![a];
    assert(s.skip(0) =~= s);
    lemma_find_str_facts(s, p);
    match find_str(s, p) {
        None => {
            lemma_replace_last(s, 0, p, seq![b]);
            assert forall|i: int| 0 <= i < s.len() implies s[i] != a by {
                if s[i] == a {
                    assert(s.subrange(i, i + 1) =~= p);
                    assert(matches_at(s, i, p));
                }
            }
            assert(s =~= s.map_values(|x: char| if x == a { b } else { x }));
        },
        Some(j) => {
            lemma_replace_step(s, 0, j, p, seq![b]);
            lemma_replace_char(s.skip(j + 1), a, b);
            assert forall|i: int| 0 <= i < j implies s[i] != a by {
                if s[i] == a {
                    assert(s.subrange(i, i + 1) =~= p);
                    assert(matches_at(s, i, p));
                }
            }
            assert(s.subrange(j, j + 1)[0] == s[j]);
            let rest = s.skip(j + 1).map_values(|x: char| if x == a { b } else { x });
            assert(s.subrange(0, j) + seq![b] + rest =~= s.map_values(|x: char| if x == a { b } else { x }));
        },
    }
}

} // verus!
