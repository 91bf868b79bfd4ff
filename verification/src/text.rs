//! Operations on strings, stated over their characters.
use vstd::prelude::*;
use vstd::string::*;

verus! {

/// The characters of `s`, in order.
pub fn chars_of(s: &str) -> (r: Vec<char>)
    ensures
        r@ == s@,
{
    let mut out: Vec<char> = Vec::new();
    for c in it: s.chars()
        invariant
            it.seq() == s@,
            out@ == s@.take(it.index() as int),
    {
        out.push(c);
        assert(s@.take(it.index() + 1) =~= s@.take(it.index() as int).push(c));
    }
    assert(s@.take(s@.len() as int) =~= s@);
    out
}

/// Whether `a` and `b` hold the same characters.
pub fn same_text(a: &str, b: &str) -> (r: bool)
    ensures
        r == (a@ == b@),
{
    a.to_owned() == b.to_owned()
}

/// What is left of `s` behind `prefix`, where `s` starts with it.
pub fn strip_prefix<'a>(s: &'a str, prefix: &str) -> (r: Option<&'a str>)
    ensures
        r is Some <==> prefix@.is_prefix_of(s@),
        r matches Some(rest) ==> s@ == prefix@ + rest@,
{
    let n: usize = s.unicode_len();
    let k: usize = prefix.unicode_len();
    if k > n {
        return None;
    }
    if same_text(s.substring_char(0, k), prefix) {
        let rest = s.substring_char(k, n);
        assert(s@ =~= prefix@ + rest@);
        assert(prefix@ =~= s@.subrange(0, prefix@.len() as int));
        Some(rest)
    } else {
        None
    }
}

/// What is left of `s` before `suffix`, where `s` ends with it.
pub fn strip_suffix<'a>(s: &'a str, suffix: &str) -> (r: Option<&'a str>)
    ensures
        r is Some <==> suffix@.is_suffix_of(s@),
        r matches Some(rest) ==> s@ == rest@ + suffix@,
{
    let n: usize = s.unicode_len();
    let k: usize = suffix.unicode_len();
    if k > n {
        return None;
    }
    if same_text(s.substring_char(n - k, n), suffix) {
        let rest = s.substring_char(0, n - k);
        assert(s@ =~= rest@ + suffix@);
        Some(rest)
    } else {
        None
    }
}

/// `needle` stands in `s` from position `i` on.
pub open spec fn occurs_at(s: Seq<char>, needle: Seq<char>, i: int) -> bool {
    0 <= i && i + needle.len() <= s.len() && s.subrange(i, i + needle.len()) == needle
}

/// `needle` stands somewhere in `s`.
pub open spec fn occurs_in(s: Seq<char>, needle: Seq<char>) -> bool {
    exists|i: int| occurs_at(s, needle, i)
}

/// The first position of `needle` in `s`.
pub fn find(s: &str, needle: &str) -> (r: Option<usize>)
    ensures
        r matches Some(i) ==> occurs_at(s@, needle@, i as int) && forall|j: int|
            0 <= j < i ==> !occurs_at(s@, needle@, j),
        r is None ==> !occurs_in(s@, needle@),
{
    let n: usize = s.unicode_len();
    let k: usize = needle.unicode_len();
    if k > n {
        return None;
    }
    let mut i: usize = 0;
    while i <= n - k
        invariant
            n == s@.len(),
            k == needle@.len(),
            k <= n,
            i <= n - k + 1,
            forall|j: int| 0 <= j < i ==> !occurs_at(s@, needle@, j),
        decreases n - k + 1 - i,
    {
        if same_text(s.substring_char(i, i + k), needle) {
            return Some(i);
        }
        if i == n - k {
            return None;
        }
        i = i + 1;
    }
    None
}

/// Whether `needle` stands somewhere in `s`.
pub fn contains(s: &str, needle: &str) -> (r: bool)
    ensures
        r == occurs_in(s@, needle@),
{
    find(s, needle).is_some()
}

/// The first position of `needle` in `s`, where it stands there at all.
pub open spec fn first_occurrence(s: Seq<char>, needle: Seq<char>) -> Option<int> {
    if occurs_in(s, needle) {
        Some(
            choose|i: int|
                occurs_at(s, needle, i) && forall|j: int| 0 <= j < i ==> !occurs_at(s, needle, j),
        )
    } else {
        None
    }
}

/// `s` cut in two at the first place where `separator` stands.
pub open spec fn split_at_first(s: Seq<char>, separator: Seq<char>) -> Option<
    (Seq<char>, Seq<char>),
> {
    match first_occurrence(s, separator) {
        Some(i) => Some((s.take(i), s.skip(i + separator.len()))),
        None => None,
    }
}

/// The first position is the one with none before it.
pub proof fn lemma_first_occurrence(s: Seq<char>, needle: Seq<char>, i: int)
    requires
        occurs_at(s, needle, i),
        forall|j: int| 0 <= j < i ==> !occurs_at(s, needle, j),
    ensures
        first_occurrence(s, needle) == Some(i),
{
    let k = first_occurrence(s, needle)->0;
    assert(occurs_at(s, needle, k) && forall|j: int| 0 <= j < k ==> !occurs_at(s, needle, j));
    if k < i {
        assert(!occurs_at(s, needle, k));
    } else if i < k {
        assert(!occurs_at(s, needle, i));
    }
}

/// A text is cut at the separator that it was put together with, where the separator does not
/// stand in it before.
pub proof fn law_split_at_first(before: Seq<char>, separator: Seq<char>, after: Seq<char>)
    requires
        forall|j: int|
            0 <= j < before.len() ==> !occurs_at(before + separator + after, separator, j),
    ensures
        split_at_first(before + separator + after, separator) == Some((before, after)),
{
    let s = before + separator + after;
    let i = before.len() as int;
    assert(s.subrange(i, i + separator.len()) =~= separator);
    lemma_first_occurrence(s, separator, i);
    assert(s.take(i) =~= before);
    assert(s.skip(i + separator.len()) =~= after);
}

/// Cuts `s` in two at the first place where `separator` stands.
pub fn split_once<'a>(s: &'a str, separator: &str) -> (r: Option<(&'a str, &'a str)>)
    ensures
        r is Some <==> split_at_first(s@, separator@) is Some,
        r matches Some((before, after)) ==> split_at_first(s@, separator@) == Some(
            (before@, after@),
        ),
{
    match find(s, separator) {
        Some(i) => {
            let n: usize = s.unicode_len();
            let k: usize = separator.unicode_len();
            let before = s.substring_char(0, i);
            let after = s.substring_char(i + k, n);
            proof {
                lemma_first_occurrence(s@, separator@, i as int);
                assert(before@ =~= s@.take(i as int));
                assert(after@ =~= s@.skip(i + separator@.len()));
            }
            Some((before, after))
        },
        None => None,
    }
}

/// The first line of `s`, without its line ending (`\n` or `\r\n`); an empty text has no line.
pub open spec fn first_line_of(s: Seq<char>) -> Option<Seq<char>> {
    if s.len() == 0 {
        None
    } else {
        match s.index_of_first('\n') {
            None => Some(s),
            Some(i) => {
                let line = s.take(i);
                if line.len() > 0 && line.last() == '\r' {
                    Some(line.drop_last())
                } else {
                    Some(line)
                }
            },
        }
    }
}

/// The first line of `s`.
pub fn first_line<'a>(s: &'a str) -> (r: Option<&'a str>)
    ensures
        r is Some <==> first_line_of(s@) is Some,
        r matches Some(line) ==> Some(line@) == first_line_of(s@),
{
    let chars = chars_of(s);
    if chars.len() == 0 {
        return None;
    }
    proof {
        s@.index_of_first_ensures('\n');
    }
    let mut i: usize = 0;
    while i < chars.len()
        invariant
            i <= chars@.len(),
            chars@ == s@,
            s@.len() > 0,
            forall|j: int| 0 <= j < i ==> s@[j] != '\n',
            s@.contains('\n') ==> s@.index_of_first('\n') is Some,
            s@.index_of_first('\n') matches Some(k) ==> 0 <= k < s@.len() && s@[k] == '\n'
                && forall|j: int| 0 <= j < k ==> s@[j] != '\n',
        decreases chars@.len() - i,
    {
        if chars[i] == '\n' {
            assert(s@[i as int] == '\n');
            assert(s@.index_of_first('\n') == Some(i as int));
            if i > 0 && chars[i - 1] == '\r' {
                let line = s.substring_char(0, i - 1);
                assert(line@ =~= s@.take(i as int).drop_last());
                return Some(line);
            }
            let line = s.substring_char(0, i);
            assert(line@ =~= s@.take(i as int));
            return Some(line);
        }
        i = i + 1;
    }
    assert(!s@.contains('\n'));
    Some(s)
}

/// `accepts` gave `answer` about a text with the characters `text`.
pub open spec fn answers<F: Fn(&str) -> bool>(accepts: F, text: Seq<char>, answer: bool) -> bool {
    exists|s: &str| s@ == text && #[trigger] call_ensures(accepts, (s,), answer)
}

/// The first `n` characters of `s`, or all of them where there are fewer.
pub fn take_chars<'a>(s: &'a str, n: usize) -> (r: &'a str)
    ensures
        r@ == s@.take(if n <= s@.len() { n as int } else { s@.len() as int }),
{
    let len: usize = s.unicode_len();
    if n <= len {
        s.substring_char(0, n)
    } else {
        assert(s@.take(s@.len() as int) =~= s@);
        s
    }
}

/// `parts` one after the other, with `separator` between them.
pub open spec fn joined(parts: Seq<Seq<char>>, separator: Seq<char>) -> Seq<char>
    decreases parts.len(),
{
    if parts.len() == 0 {
        Seq::empty()
    } else if parts.len() == 1 {
        parts[0]
    } else {
        joined(parts.drop_last(), separator) + separator + parts.last()
    }
}

/// The characters of each of `strings`.
pub open spec fn views(strings: Seq<String>) -> Seq<Seq<char>> {
    strings.map_values(|s: String| s@)
}

/// Joins `parts` with `separator` between them.
pub fn join(parts: &Vec<String>, separator: &str) -> (r: String)
    ensures
        r@ == joined(views(parts@), separator@),
{
    let mut out = String::new();
    let ghost all = views(parts@);
    for i in 0..parts.len()
        invariant
            all == views(parts@),
            all.len() == parts@.len(),
            out@ == joined(all.take(i as int), separator@),
    {
        if i > 0 {
            out.append(separator);
        }
        out.append(parts[i].as_str());
        proof {
            let now = all.take(i + 1);
            assert(now.drop_last() =~= all.take(i as int));
            assert(now.last() == parts@[i as int]@);
            if i == 0 {
                assert(all.take(0) =~= Seq::<Seq<char>>::empty());
                assert(out@ =~= parts@[0]@);
            }
        }
    }
    assert(all.take(parts@.len() as int) =~= all);
    out
}

/// What is cut off comes from the text: the two parts with the separator between them are the text,
/// and the separator does not stand in it anywhere before. A text that is not cut does not hold the
/// separator at all.
pub proof fn law_cut_at_the_first_place(s: Seq<char>, separator: Seq<char>)
    ensures
        split_at_first(s, separator) matches Some((before, after)) ==> {
            &&& s == before + separator + after
            &&& forall|j: int|
                0 <= j < before.len() ==> #[trigger] s.subrange(j, j + separator.len()) != separator
        },
        split_at_first(s, separator) is None ==> forall|before: Seq<char>, after: Seq<char>|
            s != #[trigger] ((before + separator) + after),
{
    if let Some((before, after)) = split_at_first(s, separator) {
        lemma_first_place(s, separator);
        assert(s =~= before + separator + after);
        assert forall|j: int| 0 <= j < before.len() implies #[trigger] s.subrange(
            j,
            j + separator.len(),
        ) != separator by {
            assert(!occurs_at(s, separator, j));
        }
    } else {
        assert forall|before: Seq<char>, after: Seq<char>|
            s != #[trigger] ((before + separator) + after) by {
            if s == (before + separator) + after {
                let i = before.len() as int;
                assert(s.subrange(i, i + separator.len()) =~= separator);
                assert(occurs_at(s, separator, i));
            }
        }
    }
}

/// A text that holds another has a first place of it.
proof fn lemma_first_place(s: Seq<char>, needle: Seq<char>)
    requires
        occurs_in(s, needle),
    ensures
        ({
            let i = first_occurrence(s, needle)->0;
            occurs_at(s, needle, i) && forall|j: int| 0 <= j < i ==> !occurs_at(s, needle, j)
        }),
{
    let i = choose|i: int| occurs_at(s, needle, i);
    let k = lemma_least_place(s, needle, i);
    assert(occurs_at(s, needle, k) && forall|j: int| 0 <= j < k ==> !occurs_at(s, needle, j));
}

/// The least place of a text up to a place where it stands.
proof fn lemma_least_place(s: Seq<char>, needle: Seq<char>, i: int) -> (k: int)
    requires
        occurs_at(s, needle, i),
    ensures
        occurs_at(s, needle, k),
        forall|j: int| 0 <= j < k ==> !occurs_at(s, needle, j),
    decreases i,
{
    if forall|j: int| 0 <= j < i ==> !occurs_at(s, needle, j) {
        i
    } else {
        let j = choose|j: int| 0 <= j < i && occurs_at(s, needle, j);
        lemma_least_place(s, needle, j)
    }
}

/// `s` begins with `line`, which no line break is in: it is all of `s`, which has no line break then,
/// or a line break follows it, with or without a carriage return, which is no part of the line.
pub open spec fn begins_with_line(s: Seq<char>, line: Seq<char>) -> bool {
    &&& forall|i: int| 0 <= i < line.len() ==> #[trigger] line[i] != '\n'
    &&& line == s || (line.len() < s.len() && s.take(line.len() as int + 1) == line.push('\n')) || (
    line.len() + 1 < s.len() && s.take(line.len() as int + 2) == line.push('\r').push('\n'))
    &&& line == s ==> !s.contains('\n')
    &&& line.len() > 0 && line.len() < s.len() && s[line.len() as int] == '\n' ==> line.last()
        != '\r'
}

/// The first line of a text is what stands before its first line feed, without a carriage return right
/// before that; without a line feed it is the whole text. Only an empty text has no line.
pub proof fn law_first_line(s: Seq<char>)
    ensures
        first_line_of(s) is None <==> s.len() == 0,
        first_line_of(s) matches Some(line) ==> begins_with_line(s, line),
{
    if s.len() > 0 {
        s.index_of_first_ensures('\n');
        let line = first_line_of(s)->0;
        match s.index_of_first('\n') {
            Some(i) => {
                if i > 0 && s[i - 1] == '\r' {
                    assert(s.take(line.len() as int + 2) =~= line.push('\r').push('\n'));
                } else {
                    assert(s.take(line.len() as int + 1) =~= line.push('\n'));
                }
                assert(line.len() < s.len());
            },
            None => {
                assert forall|i: int| 0 <= i < line.len() implies #[trigger] line[i] != '\n' by {
                    if s[i] == '\n' {
                        assert(s.contains('\n'));
                    }
                }
            },
        }
    }
}

/// Joining puts the separator between the parts and nowhere else: nothing gives nothing, one part
/// gives itself, and one part more gives what was there, the separator and the part.
pub proof fn law_joined(parts: Seq<Seq<char>>, part: Seq<char>, separator: Seq<char>)
    ensures
        joined(Seq::<Seq<char>>::empty(), separator).len() == 0,
        joined(seq![part], separator) == part,
        parts.len() > 0 ==> joined(parts.push(part), separator) == joined(parts, separator)
            + separator + part,
{
    assert(parts.push(part).drop_last() =~= parts);
    assert(seq![part].drop_last() =~= Seq::<Seq<char>>::empty());
}

/// Strings are read as they are, one by one.
pub proof fn law_views(strings: Seq<String>)
    ensures
        views(strings).len() == strings.len(),
        forall|i: int| 0 <= i < strings.len() ==> #[trigger] views(strings)[i] == strings[i]@,
{
}

/// A function answers for a text where it was called with that text, however it is stored.
pub proof fn law_answer<F: Fn(&str) -> bool>(f: F, s: &str, answer: bool, text: Seq<char>)
    ensures
        call_ensures(f, (s,), answer) ==> answers(f, s@, answer),
        answers(f, text, answer) ==> exists|t: &str| t@ == text && #[trigger] call_ensures(
            f,
            (t,),
            answer,
        ),
{
}

} // verus!
