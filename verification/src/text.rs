//! Text as a sequence of characters: searching, trimming, splitting, joining
//! and replacing.

use vstd::prelude::*;

verus! {

/// `String::push` appends one character.
pub assume_specification[ String::push ](s: &mut String, c: char)
    ensures
        final(s)@ == old(s)@.push(c),
;

/// The Unicode `White_Space` property.
pub open spec fn is_white_space(c: char) -> bool {
    let n = c as u32;
    ||| 0x9 <= n <= 0xd
    ||| n == 0x20
    ||| n == 0x85
    ||| n == 0xa0
    ||| n == 0x1680
    ||| 0x2000 <= n <= 0x200a
    ||| n == 0x2028
    ||| n == 0x2029
    ||| n == 0x202f
    ||| n == 0x205f
    ||| n == 0x3000
}

/// `char::is_whitespace`, which tells the `White_Space` property of Unicode.
#[verifier::external_body]
pub(crate) fn char_is_whitespace(c: char) -> (r: bool)
    ensures
        r == is_white_space(c),
{
    c.is_whitespace()
}

/// What `char::is_alphanumeric` says of a character: whether Unicode counts it
/// as alphabetic or numeric.
pub uninterp spec fn is_alphanumeric(c: char) -> bool;

/// `char::is_alphanumeric`. Of the ASCII characters it is true of the letters
/// and the digits; what it says of the others is named, not spelled out.
#[verifier::external_body]
pub(crate) fn char_is_alphanumeric(c: char) -> (r: bool)
    ensures
        r == is_alphanumeric(c),
        (c as u32) < 0x80 ==> (r <==> ('a' <= c <= 'z' || 'A' <= c <= 'Z' || '0' <= c <= '9')),
{
    c.is_alphanumeric()
}

/// The characters of a text, one by one.
pub fn to_chars(s: &str) -> (r: Vec<char>)
    ensures
        r@ == s@,
{
    let mut out: Vec<char> = Vec::new();
    for c in it: s.chars()
        invariant
            it.seq() == s@,
            out@ == s@.take(it.index()),
    {
        proof {
            assert(s@.take(it.index() + 1) =~= s@.take(it.index()).push(s@[it.index()]));
        }
        out.push(c);
    }
    proof {
        assert(s@.take(s@.len() as int) =~= s@);
    }
    out
}

/// The text made of the characters from `from` up to, and without, `to`.
pub fn from_chars(chars: &Vec<char>, from: usize, to: usize) -> (r: String)
    requires
        from <= to <= chars@.len(),
    ensures
        r@ == chars@.subrange(from as int, to as int),
{
    let mut out = String::new();
    let mut i: usize = from;
    while i < to
        invariant
            from <= i <= to <= chars@.len(),
            out@ == chars@.subrange(from as int, i as int),
        decreases to - i,
    {
        proof {
            assert(chars@.subrange(from as int, i + 1) =~= chars@.subrange(from as int, i as int).push(chars@[i as int]));
        }
        out.push(chars[i]);
        i += 1;
    }
    out
}

/// Whether two texts hold the same characters.
pub fn same_text(a: &str, b: &str) -> (r: bool)
    ensures
        r == (a@ == b@),
{
    a.to_owned() == b.to_owned()
}


// ---- Searching ----

/// `pat` stands in `s` at position `i`.
pub open spec fn occurs_at(s: Seq<char>, pat: Seq<char>, i: int) -> bool {
    &&& 0 <= i
    &&& i + pat.len() <= s.len()
    &&& s.subrange(i, i + pat.len()) == pat
}

/// `pat` stands somewhere in `s`.
pub open spec fn occurs(s: Seq<char>, pat: Seq<char>) -> bool {
    exists|i: int| occurs_at(s, pat, i)
}

/// The first position of `pat` in `s` at or after `from`.
pub open spec fn find_from(s: Seq<char>, pat: Seq<char>, from: int) -> Option<int>
    decreases s.len() + 1 - from,
{
    if from < 0 || from + pat.len() > s.len() {
        None
    } else if occurs_at(s, pat, from) {
        Some(from)
    } else {
        find_from(s, pat, from + 1)
    }
}

/// The first position of `pat` in `s`.
pub open spec fn find(s: Seq<char>, pat: Seq<char>) -> Option<int> {
    find_from(s, pat, 0)
}

/// `find_from` gives a position of `pat` with none before it, and gives `None`
/// exactly when there is none.
pub proof fn find_from_is_first(s: Seq<char>, pat: Seq<char>, from: int)
    requires
        0 <= from,
    ensures
        find_from(s, pat, from) matches Some(i) ==> from <= i && occurs_at(s, pat, i) && (
        forall|j: int| from <= j < i ==> !occurs_at(s, pat, j)),
        find_from(s, pat, from) is None ==> forall|j: int| from <= j ==> !occurs_at(s, pat, j),
    decreases s.len() + 1 - from,
{
    if from + pat.len() <= s.len() && !occurs_at(s, pat, from) {
        find_from_is_first(s, pat, from + 1);
    }
}

/// Whether `pat` stands in `s` at position `i`.
pub fn is_at(s: &Vec<char>, pat: &Vec<char>, i: usize) -> (r: bool)
    ensures
        r == occurs_at(s@, pat@, i as int),
{
    if i > s.len() || s.len() - i < pat.len() {
        return false;
    }
    let mut k: usize = 0;
    while k < pat.len()
        invariant
            k <= pat@.len(),
            i + pat@.len() <= s.len(),
            forall|j: int| 0 <= j < k ==> s@[i + j] == pat@[j],
        decreases pat@.len() - k,
    {
        if s[i + k] != pat[k] {
            proof {
                assert(s@.subrange(i as int, i + pat@.len())[k as int] != pat@[k as int]);
            }
            return false;
        }
        k += 1;
    }
    proof {
        assert(s@.subrange(i as int, i + pat@.len()) =~= pat@);
    }
    true
}

/// The first position of `pat` in `s` at or after `from`.
pub fn find_in(s: &Vec<char>, pat: &Vec<char>, from: usize) -> (r: Option<usize>)
    requires
        from <= s@.len(),
    ensures
        match r {
            Some(i) => find_from(s@, pat@, from as int) == Some(i as int) && i + pat@.len()
                <= s@.len(),
            None => find_from(s@, pat@, from as int) is None,
        },
{
    let mut i: usize = from;
    while i <= s.len() && s.len() - i >= pat.len()
        invariant
            from <= i <= s@.len() + 1,
            s@.len() <= usize::MAX - 1 || i <= s@.len(),
            find_from(s@, pat@, from as int) == find_from(s@, pat@, i as int),
        decreases s@.len() + 1 - i,
    {
        if is_at(s, pat, i) {
            return Some(i);
        }
        if i == s.len() {
            proof {
                assert(find_from(s@, pat@, i + 1) is None);
            }
            return None;
        }
        i += 1;
    }
    None
}

/// Whether `pat` stands somewhere in `s`.
pub fn contains(s: &str, pat: &str) -> (r: bool)
    ensures
        r == occurs(s@, pat@),
{
    let chars = to_chars(s);
    let pattern = to_chars(pat);
    proof {
        find_from_is_first(s@, pat@, 0);
    }
    match find_in(&chars, &pattern, 0) {
        Some(i) => {
            proof {
                assert(occurs_at(s@, pat@, i as int));
            }
            true
        },
        None => {
            proof {
                assert forall|i: int| !occurs_at(s@, pat@, i) by {
                    if i < 0 {
                    }
                }
            }
            false
        },
    }
}

/// Whether `c` stands somewhere in `s`.
pub fn contains_char(s: &str, c: char) -> (r: bool)
    ensures
        r == s@.contains(c),
{
    let chars = to_chars(s);
    let mut i: usize = 0;
    while i < chars.len()
        invariant
            i <= chars@.len(),
            chars@ == s@,
            forall|j: int| 0 <= j < i ==> chars@[j] != c,
        decreases chars@.len() - i,
    {
        if chars[i] == c {
            proof {
                assert(s@[i as int] == c);
            }
            return true;
        }
        i += 1;
    }
    false
}

/// `s` without `prefix` at its front, when it begins with it.
pub open spec fn without_prefix(s: Seq<char>, prefix: Seq<char>) -> Option<Seq<char>> {
    if prefix.is_prefix_of(s) {
        Some(s.skip(prefix.len() as int))
    } else {
        None
    }
}

/// `s` without `prefix` at its front, when it begins with it.
pub fn strip_prefix<'a>(s: &'a str, prefix: &str) -> (r: Option<&'a str>)
    ensures
        match r {
            Some(rest) => without_prefix(s@, prefix@) == Some(rest@),
            None => without_prefix(s@, prefix@) is None,
        },
{
    let chars = to_chars(s);
    let pattern = to_chars(prefix);
    if is_at(&chars, &pattern, 0) {
        proof {
            assert(prefix@.is_prefix_of(s@));
            assert(s@.skip(prefix@.len() as int) =~= s@.subrange(prefix@.len() as int, s@.len() as int));
        }
        Some(s.substring_char(pattern.len(), chars.len()))
    } else {
        proof {
            if prefix@.is_prefix_of(s@) {
                assert(occurs_at(s@, prefix@, 0));
            }
        }
        None
    }
}

/// `s` without `suffix` at its end, when it ends with it.
pub open spec fn without_suffix(s: Seq<char>, suffix: Seq<char>) -> Option<Seq<char>> {
    if suffix.is_suffix_of(s) {
        Some(s.take(s.len() - suffix.len()))
    } else {
        None
    }
}

/// `s` without `suffix` at its end, when it ends with it.
pub fn strip_suffix<'a>(s: &'a str, suffix: &str) -> (r: Option<&'a str>)
    ensures
        match r {
            Some(rest) => without_suffix(s@, suffix@) == Some(rest@),
            None => without_suffix(s@, suffix@) is None,
        },
{
    let chars = to_chars(s);
    let pattern = to_chars(suffix);
    if pattern.len() <= chars.len() && is_at(&chars, &pattern, chars.len() - pattern.len()) {
        proof {
            assert(suffix@.is_suffix_of(s@));
            assert(s@.take(s@.len() - suffix@.len()) =~= s@.subrange(0, s@.len() - suffix@.len()));
        }
        Some(s.substring_char(0, chars.len() - pattern.len()))
    } else {
        proof {
            if suffix@.is_suffix_of(s@) {
                assert(occurs_at(s@, suffix@, s@.len() - suffix@.len()));
            }
        }
        None
    }
}

// ---- Trimming ----

/// `s` without the whitespace at its front.
pub open spec fn trim_start_of(s: Seq<char>) -> Seq<char>
    decreases s.len(),
{
    if s.len() > 0 && is_white_space(s[0]) {
        trim_start_of(s.skip(1))
    } else {
        s
    }
}

/// `s` without the whitespace at its end.
pub open spec fn trim_end_of(s: Seq<char>) -> Seq<char>
    decreases s.len(),
{
    if s.len() > 0 && is_white_space(s.last()) {
        trim_end_of(s.drop_last())
    } else {
        s
    }
}

/// `s` without the whitespace at its two ends.
pub open spec fn trimmed(s: Seq<char>) -> Seq<char> {
    trim_end_of(trim_start_of(s))
}

/// `s` without the whitespace at its front.
pub fn trim_start(s: &str) -> (r: &str)
    ensures
        r@ == trim_start_of(s@),
{
    let chars = to_chars(s);
    let mut i: usize = 0;
    proof {
        assert(s@.skip(0) =~= s@);
    }
    while i < chars.len() && char_is_whitespace(chars[i])
        invariant
            i <= chars@.len(),
            chars@ == s@,
            trim_start_of(s@) == trim_start_of(s@.skip(i as int)),
        decreases chars@.len() - i,
    {
        proof {
            assert(s@.skip(i as int).skip(1) =~= s@.skip(i + 1));
        }
        i += 1;
    }
    proof {
        assert(s@.skip(i as int) =~= s@.subrange(i as int, s@.len() as int));
    }
    s.substring_char(i, chars.len())
}

/// `s` without the whitespace at its end.
pub fn trim_end(s: &str) -> (r: &str)
    ensures
        r@ == trim_end_of(s@),
{
    let chars = to_chars(s);
    let mut n: usize = chars.len();
    proof {
        assert(s@.take(n as int) =~= s@);
    }
    while n > 0 && char_is_whitespace(chars[n - 1])
        invariant
            n <= chars@.len(),
            chars@ == s@,
            trim_end_of(s@) == trim_end_of(s@.take(n as int)),
        decreases n,
    {
        proof {
            assert(s@.take(n as int).drop_last() =~= s@.take(n - 1));
        }
        n -= 1;
    }
    proof {
        assert(s@.take(n as int) =~= s@.subrange(0, n as int));
    }
    s.substring_char(0, n)
}

/// `s` without the whitespace at its two ends.
pub fn trim(s: &str) -> (r: &str)
    ensures
        r@ == trimmed(s@),
{
    trim_end(trim_start(s))
}

// ---- Replacing ----

/// `s` with every occurrence of `pat` replaced by `to`, from the left, no two
/// of the occurrences overlapping.
pub open spec fn replaced(s: Seq<char>, pat: Seq<char>, to: Seq<char>) -> Seq<char>
    decreases s.len(),
{
    if s.len() == 0 || pat.len() == 0 {
        s
    } else if occurs_at(s, pat, 0) {
        to + replaced(s.skip(pat.len() as int), pat, to)
    } else {
        seq![s[0]] + replaced(s.skip(1), pat, to)
    }
}

/// `s` with every occurrence of `pat` replaced by `to`.
pub fn replace(s: &str, pat: &str, to: &str) -> (r: String)
    requires
        pat@.len() > 0,
    ensures
        r@ == replaced(s@, pat@, to@),
{
    let chars = to_chars(s);
    let pattern = to_chars(pat);
    let mut out = String::new();
    let mut i: usize = 0;
    proof {
        assert(s@.skip(0) =~= s@);
        assert(out@ + replaced(s@, pat@, to@) =~= replaced(s@, pat@, to@));
    }
    while i < chars.len()
        invariant
            i <= chars@.len(),
            chars@ == s@,
            pattern@ == pat@,
            pat@.len() > 0,
            out@ + replaced(s@.skip(i as int), pat@, to@) == replaced(s@, pat@, to@),
        decreases chars@.len() - i,
    {
        let ghost rest = s@.skip(i as int);
        if is_at(&chars, &pattern, i) {
            proof {
                assert(rest.subrange(0, pat@.len() as int) =~= s@.subrange(i as int, i + pat@.len()));
                assert(occurs_at(rest, pat@, 0));
                assert(rest.skip(pat@.len() as int) =~= s@.skip(i + pat@.len()));
                assert(out@ + (to@ + replaced(s@.skip(i + pat@.len()), pat@, to@)) =~= (out@ + to@)
                    + replaced(s@.skip(i + pat@.len()), pat@, to@));
            }
            out.append(to);
            i += pattern.len();
        } else {
            proof {
                if occurs_at(rest, pat@, 0) {
                    assert(s@.subrange(i as int, i + pat@.len()) =~= rest.subrange(0, pat@.len() as int));
                }
                assert(rest.skip(1) =~= s@.skip(i + 1));
                assert(out@ + (seq![rest[0]] + replaced(s@.skip(i + 1), pat@, to@)) =~= out@.push(
                    rest[0],
                ) + replaced(s@.skip(i + 1), pat@, to@));
            }
            out.push(chars[i]);
            i += 1;
        }
    }
    proof {
        assert(s@.skip(i as int) =~= Seq::<char>::empty());
        assert(out@ + Seq::<char>::empty() =~= out@);
    }
    out
}

/// Replacing a text that does not occur changes nothing.
pub proof fn replaced_without_occurrence(s: Seq<char>, pat: Seq<char>, to: Seq<char>)
    requires
        !occurs(s, pat),
    ensures
        replaced(s, pat, to) == s,
    decreases s.len(),
{
    if s.len() > 0 && pat.len() > 0 {
        assert(!occurs_at(s, pat, 0));
        let rest = s.skip(1);
        assert forall|i: int| !occurs_at(rest, pat, i) by {
            if occurs_at(rest, pat, i) {
                assert(s.subrange(i + 1, i + 1 + pat.len()) =~= rest.subrange(i, i + pat.len()));
                assert(occurs_at(s, pat, i + 1));
            }
        }
        replaced_without_occurrence(rest, pat, to);
        assert(seq![s[0]] + rest =~= s);
    }
}

// ---- Splitting ----

/// How many characters stand before the first `sep`, or in all of `s` when it
/// holds none.
pub open spec fn until(s: Seq<char>, sep: char) -> int
    decreases s.len(),
{
    if s.len() == 0 || s[0] == sep {
        0
    } else {
        1 + until(s.skip(1), sep)
    }
}

/// `until` stays inside the text, and stops at a `sep` or at the end.
pub proof fn until_bounds(s: Seq<char>, sep: char)
    ensures
        0 <= until(s, sep) <= s.len(),
        until(s, sep) < s.len() ==> s[until(s, sep)] == sep,
        forall|i: int| 0 <= i < until(s, sep) ==> s[i] != sep,
    decreases s.len(),
{
    if s.len() > 0 && s[0] != sep {
        until_bounds(s.skip(1), sep);
        assert forall|i: int| 0 <= i < until(s, sep) implies s[i] != sep by {
            if i > 0 {
                assert(s[i] == s.skip(1)[i - 1]);
            }
        }
    }
}

/// The pieces of `s` between the `sep`s.
pub open spec fn split_of(s: Seq<char>, sep: char) -> Seq<Seq<char>>
    decreases s.len(),
{
    let n = until(s, sep);
    if 0 <= n < s.len() {
        seq![s.take(n)] + split_of(s.skip(n + 1), sep)
    } else {
        seq![s]
    }
}

/// A line without the carriage return that may end it.
pub open spec fn without_cr(line: Seq<char>) -> Seq<char> {
    if line.len() > 0 && line.last() == '\r' {
        line.drop_last()
    } else {
        line
    }
}

/// The lines of `s`. A line ends at a line feed, or at a carriage return and a
/// line feed; the last one may do without.
pub open spec fn lines_of(s: Seq<char>) -> Seq<Seq<char>>
    decreases s.len(),
{
    let n = until(s, '\n');
    if s.len() == 0 {
        seq![]
    } else if 0 <= n < s.len() {
        seq![without_cr(s.take(n))] + lines_of(s.skip(n + 1))
    } else {
        seq![s]
    }
}

/// The characters of several texts.
pub open spec fn texts(v: Seq<String>) -> Seq<Seq<char>> {
    Seq::new(v.len(), |i: int| v[i]@)
}

/// `texts` of a longer sequence.
pub proof fn texts_push(v: Seq<String>, s: String)
    ensures
        texts(v.push(s)) == texts(v).push(s@),
{
    assert(texts(v.push(s)) =~= texts(v).push(s@));
}

/// The characters of a text that may be there.
pub open spec fn optional(t: Option<String>) -> Option<Seq<char>> {
    match t {
        Some(t) => Some(t@),
        None => None,
    }
}

/// The characters of the texts of a list that may be there.
pub open spec fn optional_list(v: Option<Vec<String>>) -> Option<Seq<Seq<char>>> {
    match v {
        Some(v) => Some(texts(v@)),
        None => None,
    }
}

/// Whether a text is one of some.
pub fn is_among(v: &Vec<String>, t: &str) -> (r: bool)
    ensures
        r == texts(v@).contains(t@),
{
    let ghost all = texts(v@);
    let mut i: usize = 0;
    while i < v.len()
        invariant
            i <= v@.len(),
            all == texts(v@),
            forall|k: int| 0 <= k < i ==> (#[trigger] all[k]) != t@,
        decreases v@.len() - i,
    {
        if same_text(v[i].as_str(), t) {
            proof {
                assert(all[i as int] == t@);
            }
            return true;
        }
        i += 1;
    }
    false
}

/// The same texts once more.
pub fn clone_texts(v: &Vec<String>) -> (r: Vec<String>)
    ensures
        r@ == v@,
{
    let r = v.clone();
    proof {
        assert(r@ =~= v@);
    }
    r
}

/// The same texts once more.
pub fn clone_list(v: &Option<Vec<String>>) -> (r: Option<Vec<String>>)
    ensures
        optional_list(r) == optional_list(*v),
{
    match v {
        Some(v) => Some(clone_texts(v)),
        None => None,
    }
}

/// How many characters from `from` on stand before the first `sep`.
pub fn index_until(chars: &Vec<char>, from: usize, sep: char) -> (r: usize)
    requires
        from <= chars@.len(),
    ensures
        r == from + until(chars@.skip(from as int), sep),
        from <= r <= chars@.len(),
{
    let mut i: usize = from;
    while i < chars.len() && chars[i] != sep
        invariant
            from <= i <= chars@.len(),
            from + until(chars@.skip(from as int), sep) == i + until(chars@.skip(i as int), sep),
        decreases chars@.len() - i,
    {
        proof {
            assert(chars@.skip(i as int).skip(1) =~= chars@.skip(i + 1));
        }
        i += 1;
    }
    i
}

/// The pieces of `s` between the `sep`s.
pub fn split(s: &str, sep: char) -> (r: Vec<String>)
    ensures
        texts(r@) == split_of(s@, sep),
{
    let chars = to_chars(s);
    let mut out: Vec<String> = Vec::new();
    let mut i: usize = 0;
    proof {
        assert(s@.skip(0) =~= s@);
        assert(texts(out@) + split_of(s@, sep) =~= split_of(s@, sep));
    }
    loop
        invariant
            i <= chars@.len(),
            chars@ == s@,
            texts(out@) + split_of(s@.skip(i as int), sep) == split_of(s@, sep),
        decreases chars@.len() - i,
    {
        let end = index_until(&chars, i, sep);
        let ghost rest = s@.skip(i as int);
        let piece = from_chars(&chars, i, end);
        proof {
            until_bounds(rest, sep);
            assert(piece@ =~= rest.take(end - i));
            texts_push(out@, piece);
        }
        let ghost before = texts(out@);
        out.push(piece);
        if end == chars.len() {
            proof {
                assert(rest.take(end - i) =~= rest);
                assert(split_of(rest, sep) =~= seq![rest]);
                assert(before.push(rest) =~= before + seq![rest]);
            }
            return out;
        }
        proof {
            assert(rest.skip(end - i + 1) =~= s@.skip(end + 1));
            assert(before + (seq![rest.take(end - i)] + split_of(s@.skip(end + 1), sep))
                =~= before.push(rest.take(end - i)) + split_of(s@.skip(end + 1), sep));
        }
        i = end + 1;
    }
}

/// The lines of `s`.
pub fn lines(s: &str) -> (r: Vec<String>)
    ensures
        texts(r@) == lines_of(s@),
{
    let chars = to_chars(s);
    let mut out: Vec<String> = Vec::new();
    let mut i: usize = 0;
    proof {
        assert(s@.skip(0) =~= s@);
        assert(texts(out@) + lines_of(s@) =~= lines_of(s@));
    }
    while i < chars.len()
        invariant
            i <= chars@.len(),
            chars@ == s@,
            texts(out@) + lines_of(s@.skip(i as int)) == lines_of(s@),
        decreases chars@.len() - i,
    {
        let end = index_until(&chars, i, '\n');
        let ghost rest = s@.skip(i as int);
        let ghost before = texts(out@);
        proof {
            until_bounds(rest, '\n');
        }
        if end == chars.len() {
            let piece = from_chars(&chars, i, end);
            proof {
                assert(piece@ =~= rest);
                texts_push(out@, piece);
                assert(before.push(rest) =~= before + seq![rest]);
                assert(lines_of(rest) == seq![rest]);
                assert(s@.skip(end as int) =~= Seq::<char>::empty());
                assert(before.push(rest) + Seq::<Seq<char>>::empty() =~= before.push(rest));
            }
            out.push(piece);
            i = end;
        } else {
            let stop = if end > i && chars[end - 1] == '\r' {
                end - 1
            } else {
                end
            };
            let piece = from_chars(&chars, i, stop);
            proof {
                assert(rest.take(end - i).len() == end - i);
                assert(piece@ =~= without_cr(rest.take(end - i)));
                texts_push(out@, piece);
                assert(rest.skip(end - i + 1) =~= s@.skip(end + 1));
                assert(before + (seq![piece@] + lines_of(s@.skip(end + 1))) =~= before.push(piece@)
                    + lines_of(s@.skip(end + 1)));
            }
            out.push(piece);
            i = end + 1;
        }
    }
    proof {
        assert(s@.skip(i as int) =~= Seq::<char>::empty());
        assert(texts(out@) + Seq::<Seq<char>>::empty() =~= texts(out@));
    }
    out
}

// ---- Joining and formatting ----

/// The texts one after the other, with `sep` between each two.
pub open spec fn joined(parts: Seq<Seq<char>>, sep: Seq<char>) -> Seq<char>
    decreases parts.len(),
{
    if parts.len() == 0 {
        seq![]
    } else if parts.len() == 1 {
        parts[0]
    } else {
        joined(parts.drop_last(), sep) + sep + parts.last()
    }
}

/// The texts one after the other, with `sep` between each two.
pub fn join(parts: &Vec<String>, sep: &str) -> (r: String)
    ensures
        r@ == joined(texts(parts@), sep@),
{
    let mut out = String::new();
    let mut i: usize = 0;
    proof {
        assert(texts(parts@).take(0) =~= Seq::<Seq<char>>::empty());
    }
    while i < parts.len()
        invariant
            i <= parts@.len(),
            out@ == joined(texts(parts@).take(i as int), sep@),
        decreases parts@.len() - i,
    {
        proof {
            let next = texts(parts@).take(i + 1);
            assert(next.drop_last() =~= texts(parts@).take(i as int));
            assert(next.last() == parts@[i as int]@);
            if i == 0 {
                assert(out@ + parts@[0]@ =~= parts@[0]@);
            }
        }
        if i > 0 {
            out.append(sep);
        }
        out.append(parts[i].as_str());
        i += 1;
    }
    proof {
        assert(texts(parts@).take(i as int) =~= texts(parts@));
    }
    out
}

/// The decimal digit of a number below ten.
pub open spec fn digit_char(d: nat) -> char {
    if d == 0 {
        '0'
    } else if d == 1 {
        '1'
    } else if d == 2 {
        '2'
    } else if d == 3 {
        '3'
    } else if d == 4 {
        '4'
    } else if d == 5 {
        '5'
    } else if d == 6 {
        '6'
    } else if d == 7 {
        '7'
    } else if d == 8 {
        '8'
    } else {
        '9'
    }
}

/// A number in decimal notation.
pub open spec fn decimal(n: nat) -> Seq<char>
    decreases n,
{
    if n < 10 {
        seq![digit_char(n)]
    } else {
        decimal(n / 10).push(digit_char(n % 10))
    }
}

/// A whole number in decimal notation, with a minus sign below zero.
pub open spec fn signed_decimal(n: int) -> Seq<char> {
    if n < 0 {
        seq!['-'] + decimal((-n) as nat)
    } else {
        decimal(n as nat)
    }
}

fn digit(d: u64) -> (r: char)
    requires
        d < 10,
    ensures
        r == digit_char(d as nat),
{
    if d == 0 {
        '0'
    } else if d == 1 {
        '1'
    } else if d == 2 {
        '2'
    } else if d == 3 {
        '3'
    } else if d == 4 {
        '4'
    } else if d == 5 {
        '5'
    } else if d == 6 {
        '6'
    } else if d == 7 {
        '7'
    } else if d == 8 {
        '8'
    } else {
        '9'
    }
}

/// A number in decimal notation.
pub fn number_text(n: u64) -> (r: String)
    ensures
        r@ == decimal(n as nat),
    decreases n,
{
    let mut out = if n < 10 {
        String::new()
    } else {
        number_text(n / 10)
    };
    proof {
        if n < 10 {
            assert(Seq::<char>::empty().push(digit_char(n as nat)) =~= seq![digit_char(n as nat)]);
        }
    }
    out.push(digit(n % 10));
    out
}

/// A whole number in decimal notation, with a minus sign below zero.
pub fn integer_text(n: i64) -> (r: String)
    ensures
        r@ == signed_decimal(n as int),
{
    if n < 0 {
        let mut out = String::new();
        out.push('-');
        let magnitude: u64 = if n == i64::MIN {
            0x8000_0000_0000_0000u64
        } else {
            (-n) as u64
        };
        let digits = number_text(magnitude);
        out.append(digits.as_str());
        proof {
            assert(Seq::<char>::empty().push('-') =~= seq!['-']);
        }
        out
    } else {
        number_text(n as u64)
    }
}

/// `n` spaces.
pub open spec fn spaces(n: nat) -> Seq<char> {
    Seq::new(n, |i: int| ' ')
}

/// `s` followed by as many spaces as make it `width` characters wide.
pub open spec fn padded(s: Seq<char>, width: nat) -> Seq<char> {
    if s.len() < width {
        s + spaces((width - s.len()) as nat)
    } else {
        s
    }
}

/// `s` followed by as many spaces as make it `width` characters wide.
pub fn pad(s: &str, width: usize) -> (r: String)
    ensures
        r@ == padded(s@, width as nat),
{
    let n = s.unicode_len();
    let mut out = s.to_owned();
    let mut i: usize = n;
    proof {
        assert(s@ + spaces(0) =~= s@);
    }
    while i < width
        invariant
            n == s@.len(),
            n <= i,
            i <= width || i == n,
            out@ == s@ + spaces((i - n) as nat),
        decreases width - i,
    {
        proof {
            assert((s@ + spaces((i - n) as nat)).push(' ') =~= s@ + spaces((i + 1 - n) as nat));
        }
        out.push(' ');
        i += 1;
    }
    out
}

/// The text of a truth value.
pub open spec fn bool_word(b: bool) -> Seq<char> {
    if b {
        "true"@
    } else {
        "false"@
    }
}

/// The text of a truth value.
pub fn bool_text(b: bool) -> (r: String)
    ensures
        r@ == bool_word(b),
{
    if b {
        "true".to_owned()
    } else {
        "false".to_owned()
    }
}

// ---- Ordering ----

/// `a` comes no later than `b`, comparing character by character.
pub open spec fn text_le(a: Seq<char>, b: Seq<char>) -> bool
    decreases a.len(),
{
    if a.len() == 0 {
        true
    } else if b.len() == 0 {
        false
    } else if a[0] != b[0] {
        a[0] < b[0]
    } else {
        text_le(a.skip(1), b.skip(1))
    }
}

/// Of two texts one comes no later than the other, and two that do so both
/// ways are the same.
pub proof fn text_le_total(a: Seq<char>, b: Seq<char>)
    ensures
        text_le(a, b) || text_le(b, a),
        text_le(a, b) && text_le(b, a) ==> a == b,
    decreases a.len(),
{
    if a.len() > 0 && b.len() > 0 && a[0] == b[0] {
        text_le_total(a.skip(1), b.skip(1));
        if text_le(a, b) && text_le(b, a) {
            assert(a =~= seq![a[0]] + a.skip(1));
            assert(b =~= seq![b[0]] + b.skip(1));
        }
    } else if a.len() == 0 && b.len() == 0 {
        assert(a =~= b);
    }
}

/// The order of texts is transitive.
pub proof fn text_le_transitive(a: Seq<char>, b: Seq<char>, c: Seq<char>)
    requires
        text_le(a, b),
        text_le(b, c),
    ensures
        text_le(a, c),
    decreases a.len(),
{
    if a.len() > 0 && b.len() > 0 && c.len() > 0 && a[0] == b[0] && b[0] == c[0] {
        text_le_transitive(a.skip(1), b.skip(1), c.skip(1));
    }
}

/// The texts stand in order.
pub open spec fn in_order(v: Seq<Seq<char>>) -> bool {
    forall|i: int, j: int| 0 <= i <= j < v.len() ==> text_le(#[trigger] v[i], #[trigger] v[j])
}

/// Whether `a` comes no later than `b`.
pub fn at_most(a: &str, b: &str) -> (r: bool)
    ensures
        r == text_le(a@, b@),
{
    let x = to_chars(a);
    let y = to_chars(b);
    let mut i: usize = 0;
    proof {
        assert(a@.skip(0) =~= a@);
        assert(b@.skip(0) =~= b@);
    }
    while i < x.len() && i < y.len() && x[i] == y[i]
        invariant
            x@ == a@,
            y@ == b@,
            i <= x@.len(),
            i <= y@.len(),
            text_le(a@, b@) == text_le(a@.skip(i as int), b@.skip(i as int)),
        decreases x@.len() - i,
    {
        proof {
            assert(a@.skip(i as int).skip(1) =~= a@.skip(i + 1));
            assert(b@.skip(i as int).skip(1) =~= b@.skip(i + 1));
        }
        i += 1;
    }
    if i == x.len() {
        true
    } else if i == y.len() {
        false
    } else {
        x[i] < y[i]
    }
}

/// The same texts, in order.
pub fn sort_texts(v: Vec<String>) -> (r: Vec<String>)
    ensures
        in_order(texts(r@)),
        texts(r@).to_multiset() == texts(v@).to_multiset(),
{
    let mut out: Vec<String> = Vec::new();
    let mut i: usize = 0;
    proof {
        assert(texts(v@).take(0) =~= Seq::<Seq<char>>::empty());
        assert(texts(out@) =~= Seq::<Seq<char>>::empty());
    }
    while i < v.len()
        invariant
            i <= v@.len(),
            in_order(texts(out@)),
            texts(out@).to_multiset() == texts(v@).take(i as int).to_multiset(),
        decreases v@.len() - i,
    {
        let item = v[i].clone();
        let mut k: usize = 0;
        while k < out.len() && at_most(out[k].as_str(), item.as_str())
            invariant
                k <= out@.len(),
                forall|j: int| 0 <= j < k ==> text_le(#[trigger] texts(out@)[j], item@),
            decreases out@.len() - k,
        {
            k += 1;
        }
        proof {
            let before = texts(out@);
            let after = before.insert(k as int, item@);
            assert(texts(out@.insert(k as int, item)) =~= after);
            assert forall|a: int, b: int| 0 <= a <= b < after.len() implies text_le(
                #[trigger] after[a],
                #[trigger] after[b],
            ) by {
                text_le_total(item@, item@);
                if k < before.len() {
                    text_le_total(before[k as int], item@);
                }
                let xa = if a < k { a } else { a - 1 };
                let xb = if b < k { b } else { b - 1 };
                if a < k && b == k {
                    assert(text_le(before[a], item@));
                } else if a == k && b > k {
                    assert(text_le(before[k as int], before[xb]));
                    text_le_transitive(item@, before[k as int], before[xb]);
                } else if a != k && b != k {
                    assert(text_le(before[xa], before[xb]));
                }
            }
            broadcast use vstd::seq_lib::to_multiset_insert, vstd::seq_lib::to_multiset_build;
            assert(texts(v@).take(i + 1) =~= texts(v@).take(i as int).push(item@));
        }
        out.insert(k, item);
        i += 1;
    }
    proof {
        assert(texts(v@).take(i as int) =~= texts(v@));
    }
    out
}

// ---- Positions in UTF-8 ----

/// How many bytes a character takes in UTF-8.
pub open spec fn byte_width(c: char) -> nat {
    if c <= '\u{7F}' {
        1
    } else if c <= '\u{7FF}' {
        2
    } else if c <= '\u{FFFF}' {
        3
    } else {
        4
    }
}

/// How many characters take the first `n` bytes of a text in UTF-8; `None` where
/// no character ends there.
pub open spec fn at_byte(s: Seq<char>, n: nat) -> Option<int>
    decreases s.len(),
{
    if n == 0 {
        Some(0)
    } else if s.len() == 0 || byte_width(s[0]) > n {
        None
    } else {
        match at_byte(s.skip(1), (n - byte_width(s[0])) as nat) {
            Some(i) => Some(i + 1),
            None => None,
        }
    }
}

/// The text without its first `n` bytes in UTF-8; `None` where no character ends
/// there.
pub open spec fn without_bytes(s: Seq<char>, n: nat) -> Option<Seq<char>> {
    match at_byte(s, n) {
        Some(i) => Some(s.skip(i)),
        None => None,
    }
}

/// The bytes at the front of a text are those of a longer one.
pub proof fn at_byte_of_longer(a: Seq<char>, b: Seq<char>, n: nat)
    requires
        at_byte(a, n) == Some(a.len() as int),
    ensures
        at_byte(a + b, n) == Some(a.len() as int),
    decreases a.len(),
{
    if n > 0 {
        assert((a + b).skip(1) =~= a.skip(1) + b);
        at_byte_of_longer(a.skip(1), b, (n - byte_width(a[0])) as nat);
    }
}

/// A text with one more character has as many more bytes as that takes.
pub proof fn at_byte_of_push(a: Seq<char>, c: char, n: nat)
    requires
        at_byte(a, n) == Some(a.len() as int),
    ensures
        at_byte(a.push(c), n + byte_width(c)) == Some(a.len() as int + 1),
    decreases a.len(),
{
    if n > 0 {
        assert(a.push(c).skip(1) =~= a.skip(1).push(c));
        at_byte_of_push(a.skip(1), c, (n - byte_width(a[0])) as nat);
    } else {
        assert(a.len() == 0);
        assert(at_byte(a.push(c).skip(1), 0) == Some(0int));
    }
}

/// The text without its first `n` bytes in UTF-8.
pub fn skip_bytes(s: &str, n: usize) -> (r: Option<String>)
    ensures
        optional(r) == without_bytes(s@, n as nat),
{
    let chars = to_chars(s);
    let mut left: usize = n;
    let mut i: usize = 0;
    proof {
        assert(s@.skip(0) =~= s@);
    }
    while left > 0
        invariant
            chars@ == s@,
            i <= chars@.len(),
            at_byte(s@, n as nat) == (match at_byte(s@.skip(i as int), left as nat) {
                Some(k) => Some(k + i),
                None => None,
            }),
        decreases left,
    {
        if i >= chars.len() {
            return None;
        }
        let c = chars[i];
        let width: usize = if c <= '\u{7F}' {
            1
        } else if c <= '\u{7FF}' {
            2
        } else if c <= '\u{FFFF}' {
            3
        } else {
            4
        };
        proof {
            assert(s@.skip(i as int)[0] == c);
            assert(s@.skip(i as int).skip(1) =~= s@.skip(i + 1));
        }
        if width > left {
            return None;
        }
        left -= width;
        i += 1;
    }
    let rest = from_chars(&chars, i, chars.len());
    proof {
        assert(rest@ =~= s@.skip(i as int));
    }
    Some(rest)
}

/// Whether a character ends at a byte of a text in UTF-8.
pub fn ends_at_byte(s: &str, n: usize) -> (r: bool)
    ensures
        r == (at_byte(s@, n as nat) is Some),
{
    skip_bytes(s, n).is_some()
}

// ---- Laws ----

/// Every character of the text is whitespace.
pub open spec fn is_blank(s: Seq<char>) -> bool {
    forall|i: int| 0 <= i < s.len() ==> is_white_space(#[trigger] s[i])
}

/// What leading whitespace is taken from a text stands before the rest, and the
/// rest does not begin with whitespace.
pub proof fn trimming_the_start_takes_whitespace(s: Seq<char>) -> (taken: Seq<char>)
    ensures
        is_blank(taken),
        taken + trim_start_of(s) == s,
        trim_start_of(s).len() > 0 ==> !is_white_space(trim_start_of(s)[0]),
    decreases s.len(),
{
    if s.len() > 0 && is_white_space(s[0]) {
        let rest = trimming_the_start_takes_whitespace(s.skip(1));
        let taken = seq![s[0]] + rest;
        assert forall|i: int| 0 <= i < taken.len() implies is_white_space(#[trigger] taken[i]) by {
            if i > 0 {
                assert(taken[i] == rest[i - 1]);
            }
        }
        assert(s =~= seq![s[0]] + s.skip(1));
        assert(taken + trim_start_of(s) =~= seq![s[0]] + (rest + trim_start_of(s.skip(1))));
        taken
    } else {
        assert(seq![] + s =~= s);
        seq![]
    }
}

/// What trailing whitespace is taken from a text stands behind the rest, and the
/// rest does not end with whitespace.
pub proof fn trimming_the_end_takes_whitespace(s: Seq<char>) -> (taken: Seq<char>)
    ensures
        is_blank(taken),
        trim_end_of(s) + taken == s,
        trim_end_of(s).len() > 0 ==> !is_white_space(trim_end_of(s).last()),
    decreases s.len(),
{
    if s.len() > 0 && is_white_space(s.last()) {
        let rest = trimming_the_end_takes_whitespace(s.drop_last());
        let taken = rest.push(s.last());
        assert forall|i: int| 0 <= i < taken.len() implies is_white_space(#[trigger] taken[i]) by {
            if i < rest.len() {
                assert(taken[i] == rest[i]);
            }
        }
        assert(s =~= s.drop_last().push(s.last()));
        assert(trim_end_of(s) + taken =~= (trim_end_of(s.drop_last()) + rest).push(s.last()));
        taken
    } else {
        assert(s + seq![] =~= s);
        seq![]
    }
}

/// Trimming takes nothing but whitespace, from nowhere but the two ends, and
/// leaves none there.
pub proof fn trimming_takes_the_whitespace_at_the_ends(s: Seq<char>) -> (ends: (
    Seq<char>,
    Seq<char>,
))
    ensures
        is_blank(ends.0),
        is_blank(ends.1),
        ends.0 + trimmed(s) + ends.1 == s,
        trimmed(s).len() > 0 ==> !is_white_space(trimmed(s)[0]) && !is_white_space(
            trimmed(s).last(),
        ),
{
    let before = trimming_the_start_takes_whitespace(s);
    let inner = trim_start_of(s);
    let behind = trimming_the_end_takes_whitespace(inner);
    assert(before + trimmed(s) + behind =~= before + (trimmed(s) + behind));
    if trimmed(s).len() > 0 {
        assert((trimmed(s) + behind)[0] == trimmed(s)[0]);
        assert(inner[0] == trimmed(s)[0]);
    }
    (before, behind)
}

/// A text stands between two runs of whitespace.
pub open spec fn is_between_blanks(s: Seq<char>, a: Seq<char>, t: Seq<char>, b: Seq<char>) -> bool {
    is_blank(a) && is_blank(b) && s == a + t + b
}

/// The second text is the first without the whitespace at its two ends: nothing
/// else is missing, and none of it is left.
pub open spec fn is_trim_of(s: Seq<char>, t: Seq<char>) -> bool {
    &&& exists|a: Seq<char>, b: Seq<char>| #[trigger] is_between_blanks(s, a, t, b)
    &&& t.len() > 0 ==> !is_white_space(t[0]) && !is_white_space(t.last())
}

/// Trimming takes the whitespace at the two ends and nothing else.
pub proof fn trimming_keeps_all_but_whitespace(s: Seq<char>)
    ensures
        is_trim_of(s, trimmed(s)),
{
    let ends = trimming_takes_the_whitespace_at_the_ends(s);
    assert(is_between_blanks(s, ends.0, trimmed(s), ends.1));
}

/// Whitespace at the front does not count for what trimming the front leaves.
proof fn blanks_in_front_do_not_count(a: Seq<char>, t: Seq<char>)
    requires
        is_blank(a),
    ensures
        trim_start_of(a + t) == trim_start_of(t),
    decreases a.len(),
{
    if a.len() == 0 {
        assert(a + t =~= t);
    } else {
        assert(is_white_space(a[0]));
        assert((a + t).skip(1) =~= a.skip(1) + t);
        assert forall|i: int| 0 <= i < a.skip(1).len() implies is_white_space(
            #[trigger] a.skip(1)[i],
        ) by {
            assert(a.skip(1)[i] == a[i + 1]);
        }
        blanks_in_front_do_not_count(a.skip(1), t);
    }
}

/// Whitespace at the end does not count for what trimming the end leaves.
proof fn blanks_behind_do_not_count(t: Seq<char>, b: Seq<char>)
    requires
        is_blank(b),
    ensures
        trim_end_of(t + b) == trim_end_of(t),
    decreases b.len(),
{
    if b.len() == 0 {
        assert(t + b =~= t);
    } else {
        assert(is_white_space(b[b.len() - 1]));
        assert((t + b).drop_last() =~= t + b.drop_last());
        assert forall|i: int| 0 <= i < b.drop_last().len() implies is_white_space(
            #[trigger] b.drop_last()[i],
        ) by {
            assert(b.drop_last()[i] == b[i]);
        }
        blanks_behind_do_not_count(t, b.drop_last());
    }
}

/// A text that neither begins nor ends with whitespace is what trimming leaves of
/// it, whatever whitespace stands around it.
pub proof fn trimming_finds_the_text_between(a: Seq<char>, t: Seq<char>, b: Seq<char>)
    requires
        is_blank(a),
        is_blank(b),
        t.len() > 0 ==> !is_white_space(t[0]) && !is_white_space(t.last()),
    ensures
        trimmed(a + t + b) == t,
        trim_start_of(a + t) == t,
{
    let s = a + t + b;
    assert(s =~= a + (t + b));
    blanks_in_front_do_not_count(a, t + b);
    blanks_in_front_do_not_count(a, t);
    if t.len() == 0 {
        assert(t + b =~= b);
        blanks_in_front_do_not_count(b, Seq::empty());
        assert(b + Seq::<char>::empty() =~= b);
        assert(trim_start_of(b) =~= Seq::empty());
        assert(trimmed(s) =~= t);
        assert(trim_start_of(t) =~= t);
    } else {
        assert((t + b)[0] == t[0]);
        blanks_behind_do_not_count(t, b);
    }
}

/// A text that stands at the front, before a mark that it does not begin, is kept,
/// and the mark is replaced: what follows is treated by itself.
pub proof fn replacing_takes_the_first_mark(
    before: Seq<char>,
    pat: Seq<char>,
    rest: Seq<char>,
    to: Seq<char>,
)
    requires
        pat.len() > 0,
        forall|i: int| 0 <= i < before.len() ==> !occurs_at(before + pat + rest, pat, i),
    ensures
        replaced(before + pat + rest, pat, to) == before + to + replaced(rest, pat, to),
    decreases before.len(),
{
    let s = before + pat + rest;
    if before.len() == 0 {
        assert(s.subrange(0, pat.len() as int) =~= pat);
        assert(s.skip(pat.len() as int) =~= rest);
        assert(before + to + replaced(rest, pat, to) =~= to + replaced(rest, pat, to));
    } else {
        let shorter = before.skip(1);
        assert(!occurs_at(s, pat, 0));
        assert(s.skip(1) =~= shorter + pat + rest);
        assert forall|i: int| 0 <= i < shorter.len() implies !occurs_at(
            shorter + pat + rest,
            pat,
            i,
        ) by {
            assert(!occurs_at(s, pat, i + 1));
            if occurs_at(s.skip(1), pat, i) {
                assert(s.subrange(i + 1, i + 1 + pat.len()) =~= s.skip(1).subrange(
                    i,
                    i + pat.len(),
                ));
            }
        }
        replacing_takes_the_first_mark(shorter, pat, rest, to);
        assert(before + to + replaced(rest, pat, to) =~= seq![s[0]] + (shorter + to + replaced(
            rest,
            pat,
            to,
        )));
    }
}

/// A text in which no mark begins is passed by.
pub proof fn replacing_passes_by_other_text(
    before: Seq<char>,
    rest: Seq<char>,
    pat: Seq<char>,
    to: Seq<char>,
)
    requires
        pat.len() > 0,
        forall|i: int| 0 <= i < before.len() ==> !occurs_at(before + rest, pat, i),
    ensures
        replaced(before + rest, pat, to) == before + replaced(rest, pat, to),
    decreases before.len(),
{
    let s = before + rest;
    if before.len() == 0 {
        assert(s =~= rest);
        assert(before + replaced(rest, pat, to) =~= replaced(rest, pat, to));
    } else {
        let shorter = before.skip(1);
        assert(!occurs_at(s, pat, 0));
        assert(s.skip(1) =~= shorter + rest);
        assert forall|i: int| 0 <= i < shorter.len() implies !occurs_at(shorter + rest, pat, i) by {
            assert(!occurs_at(s, pat, i + 1));
            if occurs_at(s.skip(1), pat, i) {
                assert(s.subrange(i + 1, i + 1 + pat.len()) =~= s.skip(1).subrange(
                    i,
                    i + pat.len(),
                ));
            }
        }
        replacing_passes_by_other_text(shorter, rest, pat, to);
        assert(before + replaced(rest, pat, to) =~= seq![s[0]] + (shorter + replaced(
            rest,
            pat,
            to,
        )));
    }
}

/// Joining two lists of parts one behind the other is joining what each gives.
pub proof fn joining_goes_on(a: Seq<Seq<char>>, b: Seq<Seq<char>>, sep: Seq<char>)
    requires
        a.len() > 0,
        b.len() > 0,
    ensures
        joined(a + b, sep) == joined(a, sep) + sep + joined(b, sep),
    decreases b.len(),
{
    let all = a + b;
    if b.len() == 1 {
        assert(all.drop_last() =~= a);
        assert(all.last() == b[0]);
    } else {
        let fewer = b.drop_last();
        joining_goes_on(a, fewer, sep);
        assert(all.drop_last() =~= a + fewer);
        assert(all.last() == b.last());
        assert(joined(a, sep) + sep + joined(fewer, sep) + sep + b.last() =~= joined(a, sep) + sep
            + (joined(fewer, sep) + sep + b.last()));
    }
}

/// One part is joined to itself, and no part to nothing.
pub proof fn joining_one_part_gives_it(part: Seq<char>, sep: Seq<char>)
    ensures
        joined(seq![part], sep) == part,
        joined(seq![], sep) == Seq::<char>::empty(),
{
}

/// The first of several parts stands at the front of what they are joined to.
pub proof fn joining_begins_with_the_first_part(parts: Seq<Seq<char>>, sep: Seq<char>)
    requires
        parts.len() > 1,
    ensures
        joined(parts, sep) == parts[0] + sep + joined(parts.skip(1), sep),
{
    assert(parts =~= seq![parts[0]] + parts.skip(1));
    joining_goes_on(seq![parts[0]], parts.skip(1), sep);
}

/// Every mark between pieces is replaced, however many there are, and the pieces
/// stay as they are. The pieces do not hold the character that a mark begins with.
pub proof fn replacing_fills_every_mark(
    pieces: Seq<Seq<char>>,
    pat: Seq<char>,
    to: Seq<char>,
)
    requires
        pieces.len() > 0,
        pat.len() > 0,
        forall|i: int| 0 <= i < pieces.len() ==> !(#[trigger] pieces[i]).contains(pat[0]),
    ensures
        replaced(joined(pieces, pat), pat, to) == joined(pieces, to),
    decreases pieces.len(),
{
    if pieces.len() == 1 {
        let s = pieces[0];
        assert(!occurs(s, pat)) by {
            assert forall|i: int| !occurs_at(s, pat, i) by {
                if occurs_at(s, pat, i) {
                    assert(s.subrange(i, i + pat.len())[0] == s[i]);
                    assert(s.contains(pat[0]));
                }
            }
        }
        replaced_without_occurrence(s, pat, to);
    } else {
        let first = pieces[0];
        let others = pieces.skip(1);
        let rest = joined(others, pat);
        joining_begins_with_the_first_part(pieces, pat);
        joining_begins_with_the_first_part(pieces, to);
        assert forall|i: int| 0 <= i < others.len() implies !(#[trigger] others[i]).contains(
            pat[0],
        ) by {
            assert(others[i] == pieces[i + 1]);
        }
        replacing_fills_every_mark(others, pat, to);
        let s = first + pat + rest;
        assert forall|i: int| 0 <= i < first.len() implies !occurs_at(s, pat, i) by {
            if occurs_at(s, pat, i) {
                assert(s.subrange(i, i + pat.len())[0] == s[i]);
                assert(first[i] == pat[0]);
                assert(first.contains(pat[0]));
            }
        }
        replacing_takes_the_first_mark(first, pat, rest, to);
    }
}

/// The parts of a text hold no separator, and with the separators back between
/// them they are the text again.
pub proof fn splitting_loses_only_the_separators(s: Seq<char>, sep: char)
    ensures
        split_of(s, sep).len() > 0,
        joined(split_of(s, sep), seq![sep]) == s,
        forall|i: int|
            0 <= i < split_of(s, sep).len() ==> !(#[trigger] split_of(s, sep)[i]).contains(sep),
    decreases s.len(),
{
    until_bounds(s, sep);
    let n = until(s, sep);
    let all = split_of(s, sep);
    if n < s.len() {
        let tail = split_of(s.skip(n + 1), sep);
        splitting_loses_only_the_separators(s.skip(n + 1), sep);
        assert(all =~= seq![s.take(n)] + tail);
        joining_goes_on(seq![s.take(n)], tail, seq![sep]);
        assert(s.take(n) + seq![sep] + s.skip(n + 1) =~= s);
        assert forall|i: int| 0 <= i < all.len() implies !(#[trigger] all[i]).contains(sep) by {
            if i > 0 {
                assert(all[i] == tail[i - 1]);
            }
        }
    }
}

/// A line ends at the first line feed, a carriage return before it belongs to the
/// ending, and what follows is read by itself.
pub proof fn lines_end_at_line_feeds(line: Seq<char>, rest: Seq<char>)
    requires
        !line.contains('\n'),
    ensures
        line.len() == 0 || line.last() != '\r' ==> lines_of(line + seq!['\n'] + rest) == seq![
            line,
        ] + lines_of(rest),
        lines_of(line + seq!['\r', '\n'] + rest) == seq![line] + lines_of(rest),
        line.len() > 0 ==> lines_of(line) == seq![line],
        lines_of(seq![]) == Seq::<Seq<char>>::empty(),
{
    let s = line + seq!['\n'] + rest;
    first_of_its_kind(line, seq!['\n'] + rest, '\n');
    assert(s =~= line + (seq!['\n'] + rest));
    assert(s.take(line.len() as int) =~= line);
    assert(s.skip(line.len() as int + 1) =~= rest);
    let longer = line.push('\r');
    let t = line + seq!['\r', '\n'] + rest;
    assert(!longer.contains('\n')) by {
        assert forall|i: int| 0 <= i < longer.len() implies longer[i] != '\n' by {
            if i < line.len() {
                assert(line.contains(line[i]));
            }
        }
    }
    first_of_its_kind(longer, seq!['\n'] + rest, '\n');
    assert(t =~= longer + (seq!['\n'] + rest));
    assert(t.take(longer.len() as int) =~= longer);
    assert(t.skip(longer.len() as int + 1) =~= rest);
    assert(longer.drop_last() =~= line);
    until_bounds(line, '\n');
    if until(line, '\n') < line.len() {
        assert(line.contains(line[until(line, '\n')]));
    }
}

/// Lines that are joined by line feeds are read as those lines.
pub proof fn joined_lines_are_read_back(lines: Seq<Seq<char>>)
    requires
        forall|i: int| 0 <= i < lines.len() ==> !(#[trigger] lines[i]).contains('\n'),
        forall|i: int|
            0 <= i < lines.len() - 1 ==> (#[trigger] lines[i]).len() == 0 || lines[i].last()
                != '\r',
        lines.len() > 0 ==> lines.last().len() > 0,
    ensures
        lines_of(joined(lines, seq!['\n'])) == lines,
    decreases lines.len(),
{
    if lines.len() == 0 {
        assert(lines =~= seq![]);
    } else if lines.len() == 1 {
        lines_end_at_line_feeds(lines[0], seq![]);
        assert(lines =~= seq![lines[0]]);
    } else {
        let rest = lines.skip(1);
        assert forall|i: int| 0 <= i < rest.len() implies !(#[trigger] rest[i]).contains('\n') by {
            assert(rest[i] == lines[i + 1]);
        }
        assert forall|i: int| 0 <= i < rest.len() - 1 implies (#[trigger] rest[i]).len() == 0
            || rest[i].last() != '\r' by {
            assert(rest[i] == lines[i + 1]);
        }
        joined_lines_are_read_back(rest);
        joining_begins_with_the_first_part(lines, seq!['\n']);
        lines_end_at_line_feeds(lines[0], joined(rest, seq!['\n']));
        assert(lines =~= seq![lines[0]] + rest);
    }
}

/// The first separator stands behind a text that holds none.
proof fn first_of_its_kind(before: Seq<char>, rest: Seq<char>, sep: char)
    requires
        !before.contains(sep),
        rest.len() > 0,
        rest[0] == sep,
    ensures
        until(before + rest, sep) == before.len(),
{
    let s = before + rest;
    until_bounds(s, sep);
    let n = until(s, sep);
    assert(s[before.len() as int] == sep);
    if n < before.len() {
        assert(before.contains(before[n]));
    }
}

/// The number that decimal digits stand for.
pub open spec fn number_read(s: Seq<char>) -> int
    decreases s.len(),
{
    if s.len() == 0 {
        0
    } else {
        10 * number_read(s.drop_last()) + (s.last() as int - '0' as int)
    }
}

/// What a number is written as consists of digits, does not begin with a needless
/// zero, and reads as that number.
pub proof fn decimals_read_back(n: nat)
    ensures
        number_read(decimal(n)) == n,
        decimal(n).len() > 0,
        forall|i: int| 0 <= i < decimal(n).len() ==> '0' <= #[trigger] decimal(n)[i] <= '9',
        decimal(n).len() > 1 ==> decimal(n)[0] != '0',
        n > 0 ==> decimal(n)[0] != '0',
    decreases n,
{
    if n < 10 {
        let s = decimal(n);
        assert(s.drop_last() =~= seq![]);
        assert(number_read(s.drop_last()) == 0);
    } else {
        decimals_read_back(n / 10);
        let before = decimal(n / 10);
        let s = decimal(n);
        assert(s.drop_last() =~= before);
        assert(s[0] == before[0]);
        assert forall|i: int| 0 <= i < s.len() implies '0' <= #[trigger] s[i] <= '9' by {
            if i < before.len() {
                assert(s[i] == before[i]);
            }
        }
    }
}

/// A negative number is written as a minus sign and its size.
pub proof fn signs_are_written(n: int)
    ensures
        n >= 0 ==> signed_decimal(n) == decimal(n as nat),
        n < 0 ==> signed_decimal(n).len() > 0 && signed_decimal(n)[0] == '-' && number_read(
            signed_decimal(n).skip(1),
        ) == -n,
{
    if n < 0 {
        decimals_read_back((-n) as nat);
        assert(signed_decimal(n).skip(1) =~= decimal((-n) as nat));
    }
}

/// A padded text is the text with spaces behind it, as many as it is short of the
/// width.
pub proof fn padding_adds_spaces(s: Seq<char>, width: nat)
    ensures
        padded(s, width).len() == if s.len() < width {
            width
        } else {
            s.len()
        },
        s.is_prefix_of(padded(s, width)),
        forall|i: int| s.len() <= i < padded(s, width).len() ==> padded(s, width)[i] == ' ',
{
    assert(padded(s, width).take(s.len() as int) =~= s);
}

/// The first difference between two texts decides which comes first; a text comes
/// before those that it begins.
pub proof fn first_difference_decides(a: Seq<char>, b: Seq<char>, n: int)
    requires
        0 <= n <= a.len(),
        n <= b.len(),
        a.take(n) == b.take(n),
    ensures
        n == a.len() ==> text_le(a, b),
        n == b.len() && n < a.len() ==> !text_le(a, b),
        n < a.len() && n < b.len() && a[n] != b[n] ==> text_le(a, b) == (a[n] < b[n]),
    decreases n,
{
    if n > 0 {
        assert(a.take(n)[0] == a[0]);
        assert(b.take(n)[0] == b[0]);
        assert(a.skip(1).take(n - 1) =~= a.take(n).skip(1));
        assert(b.skip(1).take(n - 1) =~= b.take(n).skip(1));
        first_difference_decides(a.skip(1), b.skip(1), n - 1);
    }
}

/// What is taken off the front was the front, and what is left stands behind it.
pub proof fn prefixes_and_suffixes_come_off(a: Seq<char>, b: Seq<char>)
    ensures
        without_prefix(a + b, a) == Some(b),
        without_suffix(a + b, b) == Some(a),
{
    assert((a + b).take(a.len() as int) =~= a);
    assert((a + b).skip(a.len() as int) =~= b);
    assert((a + b).subrange((a + b).len() - b.len(), (a + b).len() as int) =~= b);
    assert((a + b).take((a + b).len() - b.len()) =~= a);
}

/// The width of a character is the number of bytes that UTF-8 writes it with.
pub proof fn widths_are_those_of_utf8(c: char)
    ensures
        byte_width(c) == vstd::utf8::encode_utf8(seq![c]).len(),
{
    let s = seq![c];
    assert(s.drop_first() =~= seq![]);
    assert(vstd::utf8::encode_utf8(s.drop_first()).len() == 0);
}

/// The text is cut into a front of so many bytes in UTF-8 and a rest.
pub open spec fn is_cut_at_byte(s: Seq<char>, front: Seq<char>, rest: Seq<char>, n: nat) -> bool {
    s == front + rest && vstd::utf8::encode_utf8(front).len() == n
}

/// The rest of a text behind a front of so many bytes in UTF-8.
pub open spec fn is_behind_bytes(s: Seq<char>, rest: Seq<char>, n: nat) -> bool {
    exists|front: Seq<char>| #[trigger] is_cut_at_byte(s, front, rest, n)
}

/// The text without its first bytes is what stands behind a front of just so many
/// bytes; there is none where no character ends there.
pub proof fn bytes_come_off_the_front(s: Seq<char>, n: nat)
    ensures
        without_bytes(s, n) matches Some(rest) ==> is_behind_bytes(s, rest, n),
        without_bytes(s, n) is None ==> forall|rest: Seq<char>|
            !#[trigger] is_behind_bytes(s, rest, n),
    decreases s.len(),
{
    assert forall|front: Seq<char>, rest: Seq<char>| #[trigger]
        is_cut_at_byte(s, front, rest, n) && front.len() > 0 implies byte_width(s[0]) <= n
        && is_cut_at_byte(s.skip(1), front.skip(1), rest, (n - byte_width(s[0])) as nat) by {
        assert(front[0] == s[0]);
        front_takes_bytes(front);
        assert(s.skip(1) =~= front.skip(1) + rest);
    }
    if n == 0 {
        let front = Seq::<char>::empty();
        assert(front + s.skip(0) =~= s);
        assert(is_cut_at_byte(s, front, s.skip(0), n));
        assert(is_behind_bytes(s, s.skip(0), n));
    } else if s.len() > 0 && byte_width(s[0]) <= n {
        let m = (n - byte_width(s[0])) as nat;
        bytes_come_off_the_front(s.skip(1), m);
        if let Some(i) = at_byte(s.skip(1), m) {
            let rest = s.skip(1).skip(i);
            let front = choose|front: Seq<char>| #[trigger]
                is_cut_at_byte(s.skip(1), front, rest, m);
            let longer = seq![s[0]] + front;
            at_byte_is_inside(s.skip(1), m);
            assert(s.skip(i + 1) =~= rest);
            assert(longer.skip(1) =~= front);
            front_takes_bytes(longer);
            assert(longer + rest =~= seq![s[0]] + (front + rest));
            assert(s =~= seq![s[0]] + s.skip(1));
            assert(is_cut_at_byte(s, longer, s.skip(i + 1), n));
            assert(is_behind_bytes(s, s.skip(i + 1), n));
        }
    }
    if without_bytes(s, n) is None {
        assert forall|rest: Seq<char>| !#[trigger] is_behind_bytes(s, rest, n) by {
            if is_behind_bytes(s, rest, n) {
                let front = choose|front: Seq<char>| #[trigger] is_cut_at_byte(s, front, rest, n);
                if front.len() > 0 {
                    assert(is_behind_bytes(s.skip(1), rest, (n - byte_width(s[0])) as nat));
                }
            }
        }
    }
}

/// A text takes the bytes of its first character and those of the rest.
proof fn front_takes_bytes(s: Seq<char>)
    requires
        s.len() > 0,
    ensures
        vstd::utf8::encode_utf8(s).len() == byte_width(s[0]) + vstd::utf8::encode_utf8(
            s.skip(1),
        ).len(),
{
    assert(s.drop_first() =~= s.skip(1));
    scalars_take_their_width(s[0]);
}

/// A character takes as many bytes as its width says.
proof fn scalars_take_their_width(c: char)
    ensures
        vstd::utf8::encode_scalar(c as u32).len() == byte_width(c),
{
}

/// The character that begins at a byte of a text, or its end, is a place in it.
proof fn at_byte_is_inside(s: Seq<char>, n: nat)
    ensures
        at_byte(s, n) matches Some(i) ==> 0 <= i <= s.len(),
    decreases s.len(),
{
    if n > 0 && s.len() > 0 && byte_width(s[0]) <= n {
        at_byte_is_inside(s.skip(1), (n - byte_width(s[0])) as nat);
    }
}

/// A truth value is written as its word.
pub proof fn truth_values_are_words()
    ensures
        bool_word(true) == seq!['t', 'r', 'u', 'e'],
        bool_word(false) == seq!['f', 'a', 'l', 's', 'e'],
{
    reveal_strlit("true");
    reveal_strlit("false");
    assert("true"@ =~= seq!['t', 'r', 'u', 'e']);
    assert("false"@ =~= seq!['f', 'a', 'l', 's', 'e']);
}

/// A text is searched from the front, and the first place where it occurs is found.
pub proof fn first_occurrence_is_found(s: Seq<char>, pat: Seq<char>)
    ensures
        find(s, pat) is Some <==> occurs(s, pat),
        find(s, pat) matches Some(i) ==> 0 <= i && i + pat.len() <= s.len() && s.subrange(
            i,
            i + pat.len(),
        ) == pat && forall|j: int| 0 <= j < i ==> !occurs_at(s, pat, j),
{
    find_from_is_first(s, pat, 0);
    if occurs(s, pat) {
        let i = choose|i: int| occurs_at(s, pat, i);
        assert(0 <= i);
    }
    if let Some(i) = find(s, pat) {
        assert(occurs_at(s, pat, i));
    }
}

} // verus!
