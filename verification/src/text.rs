use vstd::prelude::*;

verus! {

// ===== Decimal digits =====

/// `c` is one of the ten ASCII decimal digits.
pub open spec fn is_digit_char(c: char) -> bool {
    '0' <= c && c <= '9'
}

/// Numeric value of a single digit character.
pub open spec fn digit_val(c: char) -> int {
    c as int - '0' as int
}

/// Every character of `s` is a decimal digit.
pub open spec fn all_digits(s: Seq<char>) -> bool {
    forall|i: int| 0 <= i < s.len() ==> is_digit_char(#[trigger] s[i])
}

/// The number denoted by a digit string, read left to right.
pub open spec fn digits_val(s: Seq<char>) -> int
    decreases s.len(),
{
    if s.len() == 0 {
        0
    } else {
        digits_val(s.drop_last()) * 10 + digit_val(s.last())
    }
}

pub proof fn lemma_digits_val_nonneg(s: Seq<char>)
    requires
        all_digits(s),
    ensures
        digits_val(s) >= 0,
    decreases s.len(),
{
    if s.len() > 0 {
        assert(all_digits(s.drop_last()));
        lemma_digits_val_nonneg(s.drop_last());
    }
}

/// Reading one more digit multiplies the prefix value by ten.
pub proof fn lemma_digits_val_step(s: Seq<char>, i: int)
    requires
        0 <= i < s.len(),
    ensures
        digits_val(s.take(i + 1)) == digits_val(s.take(i)) * 10 + digit_val(s[i]),
{
    assert(s.take(i + 1).drop_last() =~= s.take(i));
    assert(s.take(i + 1).last() == s[i]);
}

/// The digit character for a value `0 <= d <= 9`.
pub open spec fn digit_char(d: int) -> char {
    (('0' as int + d) as char)
}

/// The decimal rendering of `n >= 0`, without a sign and without
/// leading zeros (`0` renders as "0").
pub open spec fn dec_digits(n: int) -> Seq<char>
    decreases n,
{
    if n <= 9 {
        seq![digit_char(if n < 0 { 0 } else { n })]
    } else {
        dec_digits(n / 10).push(digit_char(n % 10))
    }
}

// ===== Finding and splitting =====

/// Index of the first occurrence of `sep` in `s`, or `s.len()` if absent.
pub open spec fn find_char(s: Seq<char>, sep: char) -> int
    decreases s.len(),
{
    if s.len() == 0 {
        0
    } else if s[0] == sep {
        0
    } else {
        1 + find_char(s.skip(1), sep)
    }
}

pub proof fn lemma_find_char_bounds(s: Seq<char>, sep: char)
    ensures
        0 <= find_char(s, sep) <= s.len(),
        find_char(s, sep) < s.len() ==> s[find_char(s, sep)] == sep,
        forall|i: int| 0 <= i < find_char(s, sep) ==> s[i] != sep,
    decreases s.len(),
{
    if s.len() > 0 && s[0] != sep {
        lemma_find_char_bounds(s.skip(1), sep);
        assert forall|i: int| 0 <= i < find_char(s, sep) implies s[i] != sep by {
            if i > 0 {
                assert(s.skip(1)[i - 1] != sep);
            }
        }
    }
}

/// If the first `i` characters avoid `sep` and `s[i] == sep`, then `i`
/// is exactly where the first occurrence is.
pub proof fn lemma_find_char_at(s: Seq<char>, sep: char, i: int)
    requires
        0 <= i < s.len(),
        s[i] == sep,
        forall|j: int| 0 <= j < i ==> s[j] != sep,
    ensures
        find_char(s, sep) == i,
    decreases i,
{
    if i > 0 {
        assert forall|j: int| 0 <= j < i - 1 implies s.skip(1)[j] != sep by {
            assert(s[j + 1] != sep);
        }
        lemma_find_char_at(s.skip(1), sep, i - 1);
    }
}

/// If `sep` does not occur in `s`, the first occurrence is at `s.len()`.
pub proof fn lemma_find_char_absent(s: Seq<char>, sep: char)
    requires
        forall|j: int| 0 <= j < s.len() ==> s[j] != sep,
    ensures
        find_char(s, sep) == s.len(),
    decreases s.len(),
{
    if s.len() > 0 {
        assert forall|j: int| 0 <= j < s.skip(1).len() implies s.skip(1)[j] != sep by {
            assert(s[j + 1] != sep);
        }
        lemma_find_char_absent(s.skip(1), sep);
    }
}

/// Index of the first occurrence of `sep` in `v`, or `v.len()` if absent.
pub fn find_char_vec(v: &Vec<char>, sep: char) -> (r: usize)
    ensures
        r == find_char(v@, sep),
        r <= v.len(),
{
    let mut i: usize = 0;
    while i < v.len()
        invariant
            0 <= i <= v.len(),
            forall|j: int| 0 <= j < i ==> v@[j] != sep,
        decreases v.len() - i,
    {
        if v[i] == sep {
            proof {
                lemma_find_char_at(v@, sep, i as int);
            }
            return i;
        }
        i += 1;
    }
    proof {
        lemma_find_char_absent(v@, sep);
    }
    v.len()
}

/// The fields of `s` split at every occurrence of `sep`, in order.
/// The empty string yields one empty field, as `str::split` does.
pub open spec fn split_on(s: Seq<char>, sep: char) -> Seq<Seq<char>>
    decreases s.len(),
    via split_on_decreases
{
    let i = find_char(s, sep);
    if i == s.len() {
        seq![s]
    } else {
        seq![s.take(i)] + split_on(s.skip(i + 1), sep)
    }
}

#[via_fn]
proof fn split_on_decreases(s: Seq<char>, sep: char) {
    lemma_find_char_bounds(s, sep);
}

// ===== Trimming =====

/// The ASCII whitespace characters stripped from line ends.
pub open spec fn is_ws(c: char) -> bool {
    c == ' ' || c == '\t' || c == '\r' || c == '\n'
}

pub open spec fn trim_start_spec(s: Seq<char>) -> Seq<char>
    decreases s.len(),
{
    if s.len() > 0 && is_ws(s[0]) {
        trim_start_spec(s.skip(1))
    } else {
        s
    }
}

pub open spec fn trim_end_spec(s: Seq<char>) -> Seq<char>
    decreases s.len(),
{
    if s.len() > 0 && is_ws(s.last()) {
        trim_end_spec(s.drop_last())
    } else {
        s
    }
}

/// `s` with leading and trailing ASCII whitespace removed.
pub open spec fn trim_spec(s: Seq<char>) -> Seq<char> {
    trim_end_spec(trim_start_spec(s))
}

// ===== Exec bridges between `String` and `Vec<char>` =====

/// The characters of `s`, in order.
pub fn chars_of(s: &str) -> (r: Vec<char>)
    ensures
        r@ == s@,
{
    let n: usize = s.unicode_len();
    let mut r: Vec<char> = Vec::new();
    let mut i: usize = 0;
    while i < n
        invariant
            n == s@.len(),
            i <= n,
            r@ == s@.take(i as int),
        decreases n - i,
    {
        let c = s.get_char(i);
        r.push(c);
        proof {
            assert(r@ =~= s@.take(i + 1));
        }
        i += 1;
    }
    proof {
        assert(r@ =~= s@);
    }
    r
}

/// Relies on `Iterator::collect` for `String` (`FromIterator<char>`):
/// collecting characters builds the string of exactly those characters
/// in order.
#[verifier::external_body]
pub fn string_from_chars(v: &Vec<char>) -> (r: String)
    ensures
        r@ == v@,
{
    v.iter().collect()
}

/// The characters of `v` between `from` (inclusive) and `to` (exclusive).
pub fn subvec(v: &Vec<char>, from: usize, to: usize) -> (r: Vec<char>)
    requires
        from <= to <= v.len(),
    ensures
        r@ == v@.subrange(from as int, to as int),
{
    let mut r: Vec<char> = Vec::new();
    let mut i: usize = from;
    while i < to
        invariant
            from <= i <= to <= v.len(),
            r@ == v@.subrange(from as int, i as int),
        decreases to - i,
    {
        r.push(v[i]);
        proof {
            assert(r@ =~= v@.subrange(from as int, i + 1));
        }
        i += 1;
    }
    r
}

// ===== Exec digit parsing and rendering =====

pub proof fn lemma_digits_val_one(s: Seq<char>)
    requires
        s.len() == 1,
    ensures
        digits_val(s) == digit_val(s[0]),
{
    assert(s.drop_last() =~= Seq::<char>::empty());
    assert(digits_val(Seq::<char>::empty()) == 0);
    assert(s.last() == s[0]);
}

pub proof fn lemma_digits_val_two(s: Seq<char>)
    requires
        s.len() == 2,
    ensures
        digits_val(s) == digit_val(s[0]) * 10 + digit_val(s[1]),
{
    lemma_digits_val_one(s.drop_last());
    assert(s.drop_last()[0] == s[0]);
    assert(s.last() == s[1]);
}

/// Powers of ten.
pub open spec fn pow10(n: nat) -> int
    decreases n,
{
    if n == 0 {
        1
    } else {
        10 * pow10((n - 1) as nat)
    }
}

/// A digit string of length `n` denotes less than `pow10(n)`.
pub proof fn lemma_digits_val_upper(s: Seq<char>)
    requires
        all_digits(s),
    ensures
        digits_val(s) < pow10(s.len()),
    decreases s.len(),
{
    if s.len() > 0 {
        assert(all_digits(s.drop_last()));
        lemma_digits_val_upper(s.drop_last());
        assert(digit_val(s.last()) <= 9);
    }
}

pub proof fn lemma_digits_val_mono(s: Seq<char>, k: int)
    requires
        all_digits(s),
        0 <= k <= s.len(),
    ensures
        digits_val(s.take(k)) <= digits_val(s),
    decreases s.len(),
{
    lemma_digits_val_nonneg(s);
    if k < s.len() {
        assert(all_digits(s.drop_last()));
        assert(s.drop_last().take(k) =~= s.take(k));
        lemma_digits_val_mono(s.drop_last(), k);
        lemma_digits_val_nonneg(s.drop_last());
    } else {
        assert(s.take(k) =~= s);
    }
}

/// Parses `v[from..to]` as an unsigned decimal number.  Returns `None`
/// when the range is empty, holds a non-digit, or denotes a value
/// beyond `u32::MAX`.
pub fn parse_u32_digits(v: &Vec<char>, from: usize, to: usize) -> (r: Option<u32>)
    requires
        from <= to <= v.len(),
    ensures
        ({
            let s = v@.subrange(from as int, to as int);
            match r {
                Some(x) => to > from && all_digits(s) && x == digits_val(s),
                None => !(to > from && all_digits(s) && digits_val(s) <= u32::MAX),
            }
        }),
{
    let ghost s = v@.subrange(from as int, to as int);
    if from == to {
        return None;
    }
    let mut acc: u64 = 0;
    let mut i: usize = from;
    while i < to
        invariant
            from <= i <= to <= v.len(),
            s == v@.subrange(from as int, to as int),
            all_digits(s.take(i - from)),
            acc == digits_val(s.take(i - from)),
            acc <= u32::MAX,
        decreases to - i,
    {
        let c = v[i];
        if !('0' <= c && c <= '9') {
            proof {
                assert(s[i - from] == c);
                assert(!is_digit_char(s[i - from]));
            }
            return None;
        }
        let d: u64 = (c as u32 - '0' as u32) as u64;
        proof {
            lemma_digits_val_step(s, i - from);
        }
        acc = acc * 10 + d;
        i += 1;
        if acc > u32::MAX as u64 {
            proof {
                assert(all_digits(s.take(i - from)));
                assert(digits_val(s.take(i - from)) == acc);
                if all_digits(s) {
                    lemma_digits_val_mono(s, i - from);
                }
            }
            return None;
        }
    }
    proof {
        assert(s.take(to - from) =~= s);
    }
    Some(acc as u32)
}

/// The digit character of a value `d <= 9`.
pub fn digit_to_char(d: u8) -> (r: char)
    requires
        d <= 9,
    ensures
        r == digit_char(d as int),
{
    (('0' as u8) + d) as char
}

/// Appends the decimal rendering of `n` to `out`.
pub fn push_dec_u32(out: &mut Vec<char>, n: u32)
    ensures
        final(out)@ == old(out)@ + dec_digits(n as int),
    decreases n,
{
    if n <= 9 {
        let c = (('0' as u8) + (n as u8)) as char;
        out.push(c);
        proof {
            assert(c == digit_char(n as int));
            assert(final(out)@ =~= old(out)@ + dec_digits(n as int));
        }
    } else {
        push_dec_u32(out, n / 10);
        let c = (('0' as u8) + ((n % 10) as u8)) as char;
        out.push(c);
        proof {
            assert(c == digit_char((n as int) % 10));
            assert(final(out)@ =~= old(out)@ + dec_digits(n as int));
        }
    }
}

/// The decimal text of `n`.
pub fn u32_to_string(n: u32) -> (r: String)
    ensures
        r@ == dec_digits(n as int),
{
    let mut v: Vec<char> = Vec::new();
    push_dec_u32(&mut v, n);
    proof {
        assert(v@ =~= dec_digits(n as int));
    }
    string_from_chars(&v)
}

// ===== Tokenizing =====

/// The views of a vector of strings.
pub open spec fn views(r: Seq<String>) -> Seq<Seq<char>> {
    r.map_values(|t: String| t@)
}

/// Splits `v` at every occurrence of `sep`, as `str::split` does.
pub fn tokenize_chars(v: &Vec<char>, sep: char) -> (r: Vec<String>)
    ensures
        views(r@) == split_on(v@, sep),
{
    let mut r: Vec<String> = Vec::new();
    let mut start: usize = 0;
    let mut i: usize = 0;
    proof {
        assert(v@.skip(0) =~= v@);
        assert(views(r@) + split_on(v@, sep) =~= split_on(v@, sep));
    }
    while i < v.len()
        invariant
            0 <= start <= i <= v.len(),
            forall|j: int| start <= j < i ==> v@[j] != sep,
            split_on(v@, sep) == views(r@) + split_on(v@.skip(start as int), sep),
        decreases v.len() - i,
    {
        if v[i] == sep {
            let tok = string_from_chars(&subvec(v, start, i));
            proof {
                let rest = v@.skip(start as int);
                assert forall|j: int| 0 <= j < i - start implies rest[j] != sep by {
                    assert(rest[j] == v@[start + j]);
                }
                assert(rest[i - start] == v@[i as int]);
                lemma_find_char_at(rest, sep, i - start);
                assert(rest.take(i - start) =~= v@.subrange(start as int, i as int));
                assert(rest.skip(i - start + 1) =~= v@.skip(i + 1));
                assert(views(r@.push(tok)) =~= views(r@).push(tok@));
                assert(split_on(v@, sep) =~= views(r@.push(tok)) + split_on(v@.skip(i + 1), sep));
            }
            r.push(tok);
            start = i + 1;
        }
        i += 1;
    }
    let tok = string_from_chars(&subvec(v, start, v.len()));
    proof {
        let rest = v@.skip(start as int);
        assert forall|j: int| 0 <= j < rest.len() implies rest[j] != sep by {
            assert(rest[j] == v@[start + j]);
        }
        lemma_find_char_absent(rest, sep);
        assert(rest =~= v@.subrange(start as int, v@.len() as int));
        assert(views(r@.push(tok)) =~= views(r@).push(tok@));
        assert(split_on(v@, sep) =~= views(r@.push(tok)));
    }
    r.push(tok);
    r
}

/// Splits `line` at every occurrence of `separator`.
pub fn tokenize_string(line: &str, separator: char) -> (r: Vec<String>)
    ensures
        views(r@) == split_on(line@, separator),
{
    let v = chars_of(line);
    tokenize_chars(&v, separator)
}

// ===== Trimming (exec) =====

/// `v` with leading and trailing ASCII whitespace removed.
pub fn trim_chars(v: &Vec<char>) -> (r: Vec<char>)
    ensures
        r@ == trim_spec(v@),
{
    let mut start: usize = 0;
    proof {
        assert(v@.skip(0) =~= v@);
    }
    while start < v.len() && is_ws_char(v[start])
        invariant
            0 <= start <= v.len(),
            trim_start_spec(v@) == trim_start_spec(v@.skip(start as int)),
        decreases v.len() - start,
    {
        proof {
            assert(v@.skip(start as int).skip(1) =~= v@.skip(start + 1));
        }
        start += 1;
    }
    proof {
        assert(trim_start_spec(v@) == v@.skip(start as int));
    }
    let mut end: usize = v.len();
    while end > start && is_ws_char(v[end - 1])
        invariant
            0 <= start <= end <= v.len(),
            trim_start_spec(v@) == v@.skip(start as int),
            trim_end_spec(v@.skip(start as int)) == trim_end_spec(
                v@.subrange(start as int, end as int),
            ),
        decreases end,
    {
        proof {
            let cur = v@.subrange(start as int, end as int);
            assert(cur.last() == v@[end - 1]);
            assert(cur.drop_last() =~= v@.subrange(start as int, end - 1));
        }
        end -= 1;
    }
    proof {
        let cur = v@.subrange(start as int, end as int);
        assert(trim_end_spec(cur) == cur);
    }
    subvec(v, start, end)
}

/// Whether `c` is one of the ASCII whitespace characters the trimmer
/// strips.
pub fn is_ws_char(c: char) -> (r: bool)
    ensures
        r == is_ws(c),
{
    c == ' ' || c == '\t' || c == '\r' || c == '\n'
}

/// Trims every line and splits it into tab-separated tokens, the shape
/// the grid loaders consume.
pub fn read_lines_tokens(lines: &Vec<String>) -> (r: Vec<Vec<String>>)
    ensures
        r@.len() == lines@.len(),
        forall|i: int|
            0 <= i < lines@.len() ==> views(#[trigger] r@[i]@) == split_on(
                trim_spec(lines@[i]@),
                '\t',
            ),
{
    let mut r: Vec<Vec<String>> = Vec::new();
    let mut i: usize = 0;
    while i < lines.len()
        invariant
            0 <= i <= lines.len(),
            r@.len() == i,
            forall|j: int|
                0 <= j < i ==> views(#[trigger] r@[j]@) == split_on(trim_spec(lines@[j]@), '\t'),
        decreases lines.len() - i,
    {
        let cs = chars_of(lines[i].as_str());
        let trimmed = trim_chars(&cs);
        let toks = tokenize_chars(&trimmed, '\t');
        r.push(toks);
        i += 1;
    }
    r
}

// ===== Suffixes, folders, substring search =====

/// `s` ends with `suf`.
pub open spec fn ends_with(s: Seq<char>, suf: Seq<char>) -> bool {
    suf.len() <= s.len() && s.skip(s.len() - suf.len()) == suf
}

/// `input` with one trailing occurrence of `suffix` removed, or
/// `input` itself when it does not end with `suffix`.
pub fn remove_suffix<'a>(input: &'a str, suffix: &str) -> (r: &'a str)
    ensures
        ends_with(input@, suffix@) ==> r@ == input@.take(input@.len() - suffix@.len()),
        !ends_with(input@, suffix@) ==> r@ == input@,
{
    let n: usize = input.unicode_len();
    let m: usize = suffix.unicode_len();
    if m > n {
        return input;
    }
    let mut j: usize = 0;
    while j < m
        invariant
            m <= n,
            n == input@.len(),
            m == suffix@.len(),
            0 <= j <= m,
            forall|k: int| 0 <= k < j ==> input@[n - m + k] == suffix@[k],
        decreases m - j,
    {
        if input.get_char(n - m + j) != suffix.get_char(j) {
            proof {
                assert(input@.skip(n - m)[j as int] != suffix@[j as int]);
            }
            return input;
        }
        j += 1;
    }
    proof {
        assert(input@.skip(n - m) =~= suffix@);
    }
    input.substring_char(0, n - m)
}

/// Index of the last occurrence of `sep` in `s`, or `-1` if absent.
pub open spec fn rfind_char(s: Seq<char>, sep: char) -> int
    decreases s.len(),
{
    if s.len() == 0 {
        -1
    } else if s.last() == sep {
        s.len() - 1
    } else {
        rfind_char(s.drop_last(), sep)
    }
}

/// The text before the last path separator of `filename`, or the empty
/// string when it holds none.
pub fn get_folder(filename: &str) -> (r: String)
    ensures
        rfind_char(filename@, '/') >= 0 ==> r@ == filename@.take(rfind_char(filename@, '/')),
        rfind_char(filename@, '/') < 0 ==> r@ == Seq::<char>::empty(),
{
    let v = chars_of(filename);
    let mut end: usize = v.len();
    proof {
        assert(v@.take(v@.len() as int) =~= v@);
    }
    while end > 0 && v[end - 1] != '/'
        invariant
            0 <= end <= v.len(),
            rfind_char(v@, '/') == rfind_char(v@.take(end as int), '/'),
        decreases end,
    {
        proof {
            assert(v@.take(end as int).drop_last() =~= v@.take(end - 1));
        }
        end -= 1;
    }
    if end == 0 {
        proof {
            assert(v@.take(0) =~= Seq::<char>::empty());
        }
        String::new()
    } else {
        proof {
            assert(v@.take(end as int).last() == v@[end - 1]);
            assert(rfind_char(v@, '/') == end - 1);
            assert(v@.subrange(0, end - 1) =~= v@.take(end - 1));
        }
        string_from_chars(&subvec(&v, 0, end - 1))
    }
}

/// `needle` occurs contiguously somewhere in `hay`.
pub open spec fn contains_sub(hay: Seq<char>, needle: Seq<char>) -> bool {
    exists|i: int|
        0 <= i <= hay.len() - needle.len() && #[trigger] hay.subrange(i, i + needle.len())
            == needle
}

/// Whether `hay[at .. at + needle.len()]` equals `needle`.
pub fn matches_at(hay: &Vec<char>, needle: &Vec<char>, at: usize) -> (r: bool)
    requires
        at + needle.len() <= hay.len(),
    ensures
        r == (hay@.subrange(at as int, at + needle@.len()) == needle@),
{
    let mut j: usize = 0;
    while j < needle.len()
        invariant
            at + needle.len() <= hay.len(),
            0 <= j <= needle.len(),
            forall|k: int| 0 <= k < j ==> hay@[at + k] == needle@[k],
        decreases needle.len() - j,
    {
        if hay[at + j] != needle[j] {
            proof {
                assert(hay@.subrange(at as int, at + needle@.len())[j as int] != needle@[j as int]);
            }
            return false;
        }
        j += 1;
    }
    proof {
        assert(hay@.subrange(at as int, at + needle@.len()) =~= needle@);
    }
    true
}

/// Substring search: whether `needle` occurs in `hay`.
pub fn contains_chars(hay: &Vec<char>, needle: &Vec<char>) -> (r: bool)
    ensures
        r == contains_sub(hay@, needle@),
{
    if needle.len() > hay.len() {
        return false;
    }
    if needle.len() == 0 {
        proof {
            assert(hay@.subrange(0, 0 + needle@.len() as int) =~= needle@);
        }
        return true;
    }
    let mut i: usize = 0;
    let last: usize = hay.len() - needle.len();
    while i <= last
        invariant
            0 < needle.len() <= hay.len(),
            last == hay.len() - needle.len(),
            0 <= i <= last + 1,
            forall|k: int|
                0 <= k < i ==> #[trigger] hay@.subrange(k, k + needle@.len()) != needle@,
        decreases last + 1 - i,
    {
        if matches_at(hay, needle, i) {
            return true;
        }
        i += 1;
    }
    false
}

} // verus!
