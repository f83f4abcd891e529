//! Operations on text, specified over sequences of characters.
use vstd::prelude::*;
use vstd::string::*;

verus! {

/// The characters of each string of `strings`, in order.
pub open spec fn views(strings: Seq<String>) -> Seq<Seq<char>> {
    Seq::new(strings.len(), |i: int| strings[i]@)
}

/// `parts` put together, with `sep` between neighbours.
pub open spec fn joined(parts: Seq<Seq<char>>, sep: Seq<char>) -> Seq<char>
    decreases parts.len(),
{
    if parts.len() == 0 {
        Seq::empty()
    } else if parts.len() == 1 {
        parts[0]
    } else {
        joined(parts.drop_last(), sep) + sep + parts.last()
    }
}

/// `s` begins with `prefix`.
pub open spec fn has_prefix(s: Seq<char>, prefix: Seq<char>) -> bool {
    prefix.len() <= s.len() && s.subrange(0, prefix.len() as int) == prefix
}

/// `s` ends with `suffix`.
pub open spec fn has_suffix(s: Seq<char>, suffix: Seq<char>) -> bool {
    suffix.len() <= s.len() && s.subrange(s.len() - suffix.len(), s.len() as int) == suffix
}

/// `needle` stands in `s` at position `at`.
pub open spec fn occurs_at(s: Seq<char>, needle: Seq<char>, at: int) -> bool {
    0 <= at && at + needle.len() <= s.len() && s.subrange(at, at + needle.len()) == needle
}

/// `needle` stands somewhere in `s`.
pub open spec fn occurs(s: Seq<char>, needle: Seq<char>) -> bool {
    exists|at: int| occurs_at(s, needle, at)
}

/// The digit `d` as a character.
pub open spec fn digit_char(d: nat) -> char {
    if d == 0 {
        '0'
    } else if d == 1 {
        '1'
    } else if d == 2 {
        '2'
    } else if d == 3 {
        '3'
    } else if d == 4 {
        '4'
    } else if d == 5 {
        '5'
    } else if d == 6 {
        '6'
    } else if d == 7 {
        '7'
    } else if d == 8 {
        '8'
    } else {
        '9'
    }
}

/// `n` in decimal, without leading zeros.
pub open spec fn decimal_chars(n: nat) -> Seq<char>
    decreases n,
{
    if n < 10 {
        seq![digit_char(n)]
    } else {
        decimal_chars(n / 10).push(digit_char(n % 10))
    }
}

/// `n` in decimal, with a minus sign in front where it is negative.
pub open spec fn signed_decimal_chars(n: int) -> Seq<char> {
    if n < 0 {
        seq!['-'] + decimal_chars((-n) as nat)
    } else {
        decimal_chars(n as nat)
    }
}

/// Whether two strings hold the same characters.
pub fn str_eq(a: &str, b: &str) -> (r: bool)
    ensures
        r == (a@ == b@),
{
    a.to_owned() == b.to_owned()
}

/// `a` followed by `b`.
pub fn concat2(a: &str, b: &str) -> (r: String)
    ensures
        r@ == a@ + b@,
{
    let mut s = a.to_owned();
    s.append(b);
    s
}

/// `a`, `b` and `c`, one after the other.
pub fn concat3(a: &str, b: &str, c: &str) -> (r: String)
    ensures
        r@ == a@ + b@ + c@,
{
    let mut s = a.to_owned();
    s.append(b);
    s.append(c);
    s
}

/// `a`, `b`, `c` and `d`, one after the other.
pub fn concat4(a: &str, b: &str, c: &str, d: &str) -> (r: String)
    ensures
        r@ == a@ + b@ + c@ + d@,
{
    let mut s = concat3(a, b, c);
    s.append(d);
    s
}

/// `a`, `b`, `c`, `d` and `e`, one after the other.
pub fn concat5(a: &str, b: &str, c: &str, d: &str, e: &str) -> (r: String)
    ensures
        r@ == a@ + b@ + c@ + d@ + e@,
{
    let mut s = concat4(a, b, c, d);
    s.append(e);
    s
}

/// `parts` put together, with `sep` between neighbours.
pub fn join(parts: &Vec<String>, sep: &str) -> (r: String)
    ensures
        r@ == joined(views(parts@), sep@),
{
    if parts.len() == 0 {
        return String::new();
    }
    let mut out = parts[0].clone();
    let mut i: usize = 1;
    proof {
        assert(views(parts@).take(1) =~= seq![parts@[0]@]);
    }
    while i < parts.len()
        invariant
            1 <= i <= parts.len(),
            out@ == joined(views(parts@).take(i as int), sep@),
        decreases parts.len() - i,
    {
        out.append(sep);
        out.append(parts[i].as_str());
        proof {
            let next = views(parts@).take(i + 1);
            assert(next.drop_last() =~= views(parts@).take(i as int));
            assert(next.last() == parts@[i as int]@);
        }
        i = i + 1;
    }
    proof {
        assert(views(parts@).take(parts@.len() as int) =~= views(parts@));
    }
    out
}

/// Whether `s` begins with `prefix`.
pub fn starts_with(s: &str, prefix: &str) -> (r: bool)
    ensures
        r == has_prefix(s@, prefix@),
{
    let n: usize = prefix.unicode_len();
    if n <= s.unicode_len() {
        str_eq(s.substring_char(0, n), prefix)
    } else {
        false
    }
}

/// Whether `s` ends with `suffix`.
pub fn ends_with(s: &str, suffix: &str) -> (r: bool)
    ensures
        r == has_suffix(s@, suffix@),
{
    let n: usize = suffix.unicode_len();
    let len: usize = s.unicode_len();
    if n <= len {
        str_eq(s.substring_char(len - n, len), suffix)
    } else {
        false
    }
}

/// What follows `prefix` in `s`, where `s` begins with it.
pub fn strip_prefix<'a>(s: &'a str, prefix: &str) -> (r: Option<&'a str>)
    ensures
        r is Some <==> has_prefix(s@, prefix@),
        r matches Some(rest) ==> rest@ == s@.subrange(prefix@.len() as int, s@.len() as int),
{
    if starts_with(s, prefix) {
        Some(s.substring_char(prefix.unicode_len(), s.unicode_len()))
    } else {
        None
    }
}

/// What stands before `suffix` in `s`, where `s` ends with it.
pub fn strip_suffix<'a>(s: &'a str, suffix: &str) -> (r: Option<&'a str>)
    ensures
        r is Some <==> has_suffix(s@, suffix@),
        r matches Some(rest) ==> rest@ == s@.subrange(0, s@.len() - suffix@.len()),
{
    if ends_with(s, suffix) {
        Some(s.substring_char(0, s.unicode_len() - suffix.unicode_len()))
    } else {
        None
    }
}

/// The first position of `needle` in `s`.
pub fn find(s: &str, needle: &str) -> (r: Option<usize>)
    ensures
        r is Some <==> occurs(s@, needle@),
        r matches Some(at) ==> occurs_at(s@, needle@, at as int) && forall|k: int|
            0 <= k < at ==> !occurs_at(s@, needle@, k),
{
    let n: usize = needle.unicode_len();
    let len: usize = s.unicode_len();
    if n > len {
        return None;
    }
    let mut at: usize = 0;
    while at <= len - n
        invariant
            n == needle@.len(),
            len == s@.len(),
            n <= len,
            at <= len - n + 1,
            forall|k: int| 0 <= k < at ==> !occurs_at(s@, needle@, k),
        decreases len - n + 1 - at,
    {
        if str_eq(s.substring_char(at, at + n), needle) {
            assert(occurs_at(s@, needle@, at as int));
            return Some(at);
        }
        if at == len - n {
            return None;
        }
        at = at + 1;
    }
    None
}

/// Whether `needle` stands somewhere in `s`.
pub fn contains(s: &str, needle: &str) -> (r: bool)
    ensures
        r == occurs(s@, needle@),
{
    find(s, needle).is_some()
}

fn digit(d: u64) -> (r: &'static str)
    requires
        d < 10,
    ensures
        r@ == seq![digit_char(d as nat)],
{
    proof {
        reveal_strlit("0");
        reveal_strlit("1");
        reveal_strlit("2");
        reveal_strlit("3");
        reveal_strlit("4");
        reveal_strlit("5");
        reveal_strlit("6");
        reveal_strlit("7");
        reveal_strlit("8");
        reveal_strlit("9");
    }
    if d == 0 {
        "0"
    } else if d == 1 {
        "1"
    } else if d == 2 {
        "2"
    } else if d == 3 {
        "3"
    } else if d == 4 {
        "4"
    } else if d == 5 {
        "5"
    } else if d == 6 {
        "6"
    } else if d == 7 {
        "7"
    } else if d == 8 {
        "8"
    } else {
        "9"
    }
}

/// `n` in decimal.
pub fn decimal(n: u64) -> (r: String)
    ensures
        r@ == decimal_chars(n as nat),
    decreases n,
{
    if n < 10 {
        digit(n).to_owned()
    } else {
        let mut s = decimal(n / 10);
        s.append(digit(n % 10));
        s
    }
}

/// A copy of `strings`.
pub fn clone_strings(strings: &Vec<String>) -> (r: Vec<String>)
    ensures
        r@ == strings@,
{
    let r = strings.clone();
    assert(r@ =~= strings@);
    r
}

/// Whether one of `strings` holds the characters of `s`.
pub fn contains_str(strings: &Vec<String>, s: &str) -> (r: bool)
    ensures
        r == views(strings@).contains(s@),
{
    let mut i: usize = 0;
    while i < strings.len()
        invariant
            i <= strings.len(),
            forall|k: int| 0 <= k < i ==> strings@[k]@ != s@,
        decreases strings.len() - i,
    {
        if str_eq(strings[i].as_str(), s) {
            assert(views(strings@)[i as int] == s@);
            return true;
        }
        i = i + 1;
    }
    false
}

/// The first position of `needle` in `s` at or after `from`, or -1.
pub open spec fn first_from(s: Seq<char>, needle: Seq<char>, from: int) -> int
    decreases s.len() - from + 1,
{
    if from < 0 || from + needle.len() > s.len() {
        -1
    } else if occurs_at(s, needle, from) {
        from
    } else {
        first_from(s, needle, from + 1)
    }
}

/// What stands before and after the first `sep` in `s`.
pub open spec fn split(s: Seq<char>, sep: Seq<char>) -> Option<(Seq<char>, Seq<char>)> {
    let at = first_from(s, sep, 0);
    if at < 0 {
        None
    } else {
        Some((s.subrange(0, at), s.subrange(at + sep.len(), s.len() as int)))
    }
}

proof fn lemma_first_found(s: Seq<char>, needle: Seq<char>, from: int, at: int)
    requires
        0 <= from <= at,
        occurs_at(s, needle, at),
        forall|k: int| from <= k < at ==> !occurs_at(s, needle, k),
    ensures
        first_from(s, needle, from) == at,
    decreases at - from,
{
    if from < at {
        lemma_first_found(s, needle, from + 1, at);
    }
}

proof fn lemma_first_missing(s: Seq<char>, needle: Seq<char>, from: int)
    requires
        0 <= from,
        !occurs(s, needle),
    ensures
        first_from(s, needle, from) == -1,
    decreases s.len() - from + 1,
{
    if from + needle.len() <= s.len() {
        assert(!occurs_at(s, needle, from));
        lemma_first_missing(s, needle, from + 1);
    }
}

/// What stands before and after the first `sep` in `s`.
pub fn split_once<'a>(s: &'a str, sep: &str) -> (r: Option<(&'a str, &'a str)>)
    ensures
        match (r, split(s@, sep@)) {
            (Some(parts), Some(views)) => parts.0@ == views.0 && parts.1@ == views.1,
            (None, None) => true,
            _ => false,
        },
{
    match find(s, sep) {
        Some(at) => {
            proof {
                lemma_first_found(s@, sep@, 0, at as int);
            }
            let len: usize = s.unicode_len();
            let n: usize = sep.unicode_len();
            Some((s.substring_char(0, at), s.substring_char(at + n, len)))
        },
        None => {
            proof {
                lemma_first_missing(s@, sep@, 0);
            }
            None
        },
    }
}

/// A text that begins or ends with another begins or ends with it whatever follows or precedes; and
/// what follows or precedes makes up the text.
pub proof fn law_beginnings_and_ends(s: Seq<char>, part: Seq<char>, rest: Seq<char>)
    ensures
        has_prefix(part + rest, part),
        has_suffix(rest + part, part),
        has_prefix(s, part) ==> s =~= part + s.skip(part.len() as int),
        has_suffix(s, part) ==> s =~= s.take(s.len() - part.len()) + part,
{
    assert((part + rest).subrange(0, part.len() as int) =~= part);
    assert((rest + part).subrange((rest + part).len() - part.len(), (rest + part).len() as int)
        =~= part);
    if has_prefix(s, part) {
        assert(s.subrange(0, part.len() as int) =~= s.take(part.len() as int));
        assert(s.take(part.len() as int) + s.skip(part.len() as int) =~= s);
    }
    if has_suffix(s, part) {
        let n = s.len() - part.len();
        assert(s.subrange(n, s.len() as int) =~= s.skip(n));
        assert(s.take(n) + s.skip(n) =~= s);
    }
}

/// A text occurs in another exactly where it stands between two others.
pub proof fn law_where_a_text_occurs(a: Seq<char>, needle: Seq<char>, b: Seq<char>, s: Seq<char>, at: int)
    ensures
        occurs_at(a + needle + b, needle, a.len() as int),
        occurs(a + needle + b, needle),
        occurs_at(s, needle, at) ==> s =~= s.take(at) + needle + s.skip(at + needle.len()),
{
    let whole = a + needle + b;
    assert(whole.subrange(a.len() as int, (a.len() + needle.len()) as int) =~= needle);
    assert(occurs_at(whole, needle, a.len() as int));
    if occurs_at(s, needle, at) {
        assert(s.subrange(at, at + needle.len()) == needle);
        assert(s.take(at) + s.subrange(at, at + needle.len()) + s.skip(at + needle.len()) =~= s);
    }
}

/// Splitting cuts at the first separator: the two parts with the separator between them are the
/// text, and the separator does not occur further to the front. Without a separator there is
/// nothing to split.
pub proof fn law_splitting_cuts_at_the_first(s: Seq<char>, sep: Seq<char>, k: int)
    ensures
        split(s, sep) is None <==> !occurs(s, sep),
        split(s, sep) matches Some((a, b)) ==> s =~= a + sep + b,
        split(s, sep) matches Some((a, b)) ==> 0 <= k < a.len() ==> !occurs_at(s, sep, k),
{
    if occurs(s, sep) {
        let at = choose|at: int| occurs_at(s, sep, at);
        lemma_first_is_first(s, sep, 0, at);
    } else {
        lemma_none_is_found(s, sep, 0);
    }
    let at = first_from(s, sep, 0);
    if at >= 0 {
        if !occurs_at(s, sep, at) {
            lemma_none_is_found(s, sep, 0);
        }
        assert(s.subrange(0, at) =~= s.take(at));
        assert(s.subrange(at + sep.len(), s.len() as int) =~= s.skip(at + sep.len()));
        law_where_a_text_occurs(s, sep, s, s, at);
        if 0 <= k < at && occurs_at(s, sep, k) {
            lemma_first_is_first(s, sep, 0, k);
        }
    }
}

proof fn lemma_first_is_first(s: Seq<char>, sep: Seq<char>, from: int, at: int)
    requires
        0 <= from <= at,
        occurs_at(s, sep, at),
    ensures
        from <= first_from(s, sep, from) <= at,
        occurs_at(s, sep, first_from(s, sep, from)),
    decreases at - from,
{
    if !occurs_at(s, sep, from) {
        lemma_first_is_first(s, sep, from + 1, at);
    }
}

proof fn lemma_none_is_found(s: Seq<char>, sep: Seq<char>, from: int)
    requires
        0 <= from,
        !occurs(s, sep) || first_from(s, sep, from) < 0 || !occurs_at(
            s,
            sep,
            first_from(s, sep, from),
        ),
    ensures
        first_from(s, sep, from) < 0,
    decreases s.len() - from + 1,
{
    if from + sep.len() <= s.len() && !occurs_at(s, sep, from) {
        lemma_none_is_found(s, sep, from + 1);
    }
}

/// Parts are joined whole and in order, with the separator between any two of them and nowhere
/// else.
pub proof fn law_joined_parts(parts: Seq<Seq<char>>, last: Seq<char>, sep: Seq<char>)
    ensures
        joined(Seq::empty(), sep).len() == 0,
        joined(seq![last], sep) == last,
        parts.len() > 0 ==> joined(parts.push(last), sep) == joined(parts, sep) + sep + last,
{
    assert(parts.push(last).drop_last() =~= parts);
    assert(seq![last][0] == last);
}

/// A number is shown by its digits, the highest first and without leading zeros: appending a digit
/// multiplies by ten and adds it. Different digits look different.
pub proof fn law_digits_of_a_number(n: nat, d: nat, e: nat)
    requires
        d < 10,
        e < 10,
    ensures
        decimal_chars(d) == seq![digit_char(d)],
        n > 0 ==> decimal_chars(10 * n + d) == decimal_chars(n).push(digit_char(d)),
        digit_char(d) as u32 == 48 + d,
        d != e ==> digit_char(d) != digit_char(e),
{
    if n > 0 {
        assert((10 * n + d) / 10 == n);
        assert((10 * n + d) % 10 == d);
    }
}

/// A negative number is shown with a sign before its digits.
pub proof fn law_sign_of_a_number(n: nat)
    ensures
        signed_decimal_chars(n as int) == decimal_chars(n),
        n > 0 ==> signed_decimal_chars(-n) == seq!['-'] + decimal_chars(n),
{
}

} // verus!
