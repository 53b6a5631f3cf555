use vstd::prelude::*;

verus! {

/// `String::push` of the standard library. Assumed of it, as its
/// documentation says: it appends the character to the end of the string and
/// changes nothing else.
pub assume_specification[ String::push ](s: &mut String, c: char)
    ensures
        final(s)@ == old(s)@.push(c),
;

/// The characters a placeholder name is made of: ASCII letters and digits,
/// the underscore, the dot and the hyphen.
pub open spec fn is_name_char(c: char) -> bool {
    ||| ('a' <= c && c <= 'z')
    ||| ('A' <= c && c <= 'Z')
    ||| ('0' <= c && c <= '9')
    ||| c == '_'
    ||| c == '.'
    ||| c == '-'
}

/// A placeholder name: one or more name characters.
pub open spec fn is_name(name: Seq<char>) -> bool {
    &&& name.len() >= 1
    &&& forall|k: int| 0 <= k < name.len() ==> is_name_char(#[trigger] name[k])
}

/// The text that stands for a name: a dollar sign, the name in braces.
pub open spec fn token(name: Seq<char>) -> Seq<char> {
    seq!['$', '{'] + name + seq!['}']
}

/// `pattern` stands in `text` at position `at`.
pub open spec fn occurs_at(text: Seq<char>, pattern: Seq<char>, at: int) -> bool {
    &&& 0 <= at
    &&& at + pattern.len() <= text.len()
    &&& text.subrange(at, at + pattern.len()) == pattern
}

/// `pattern` stands somewhere in `text`.
pub open spec fn contains(text: Seq<char>, pattern: Seq<char>) -> bool {
    exists|at: int| occurs_at(text, pattern, at)
}

/// A placeholder for `name` starts at position `at` of `text`.
pub open spec fn placeholder_at(text: Seq<char>, at: int, name: Seq<char>) -> bool {
    is_name(name) && occurs_at(text, token(name), at)
}

/// `text` holds a placeholder.
pub open spec fn has_placeholder(text: Seq<char>) -> bool {
    exists|at: int, name: Seq<char>| placeholder_at(text, at, name)
}

/// The placeholder for `name` at `at` is the leftmost placeholder of `text`.
pub open spec fn is_first_placeholder(text: Seq<char>, at: int, name: Seq<char>) -> bool {
    &&& placeholder_at(text, at, name)
    &&& forall|earlier: int, other: Seq<char>| earlier < at ==> !placeholder_at(text, earlier, other)
}

/// The leftmost placeholder of `text` is one for `name`.
pub open spec fn leftmost_is(text: Seq<char>, name: Seq<char>) -> bool {
    exists|at: int| is_first_placeholder(text, at, name)
}

/// The name of the leftmost placeholder of `text`, if it holds one.
pub open spec fn first_placeholder(text: Seq<char>) -> Option<Seq<char>> {
    if has_placeholder(text) {
        Some(choose|name: Seq<char>| leftmost_is(text, name))
    } else {
        None
    }
}

/// `text` with every occurrence of `pattern` replaced by `with`, found from
/// left to right without overlap. An empty pattern replaces nothing.
pub open spec fn replace_all(text: Seq<char>, pattern: Seq<char>, with: Seq<char>) -> Seq<char>
    decreases text.len(),
{
    if pattern.len() == 0 || text.len() < pattern.len() {
        text
    } else if text.subrange(0, pattern.len() as int) == pattern {
        with + replace_all(text.subrange(pattern.len() as int, text.len() as int), pattern, with)
    } else {
        text.subrange(0, 1) + replace_all(text.subrange(1, text.len() as int), pattern, with)
    }
}

/// The characters of a placeholder, one by one.
pub proof fn lemma_placeholder_chars(text: Seq<char>, at: int, name: Seq<char>)
    requires
        placeholder_at(text, at, name),
    ensures
        0 <= at,
        at + name.len() + 3 <= text.len(),
        text[at] == '$',
        text[at + 1] == '{',
        text[at + 2 + name.len()] == '}',
        forall|k: int| 0 <= k < name.len() ==> #[trigger] text[at + 2 + k] == name[k],
        forall|k: int| at + 2 <= k < at + 2 + name.len() ==> is_name_char(#[trigger] text[k]),
{
    let t = token(name);
    let part = text.subrange(at, at + t.len());
    assert(t.len() == name.len() + 3);
    assert(part[0] == t[0]);
    assert(part[1] == t[1]);
    let last: int = name.len() as int + 2;
    assert(part[last] == t[last]);
    assert forall|k: int| 0 <= k < name.len() implies #[trigger] text[at + 2 + k] == name[k] by {
        assert(part[2 + k] == t[2 + k]);
    }
    assert forall|k: int| at + 2 <= k < at + 2 + name.len() implies is_name_char(#[trigger] text[k]) by {
        assert(text[at + 2 + (k - at - 2)] == name[k - at - 2]);
    }
}

/// Characters that spell a placeholder make one.
pub proof fn lemma_placeholder_from_chars(text: Seq<char>, at: int, len: int)
    requires
        0 <= at,
        1 <= len,
        at + len + 3 <= text.len(),
        text[at] == '$',
        text[at + 1] == '{',
        text[at + 2 + len] == '}',
        forall|k: int| at + 2 <= k < at + 2 + len ==> is_name_char(#[trigger] text[k]),
    ensures
        placeholder_at(text, at, text.subrange(at + 2, at + 2 + len)),
        token(text.subrange(at + 2, at + 2 + len)) == text.subrange(at, at + len + 3),
{
    let name = text.subrange(at + 2, at + 2 + len);
    assert(token(name) =~= text.subrange(at, at + len + 3));
    assert forall|k: int| 0 <= k < name.len() implies is_name_char(#[trigger] name[k]) by {
        assert(name[k] == text[at + 2 + k]);
    }
}

/// Two placeholders that start at the same position have the same name.
pub proof fn lemma_same_start_same_name(text: Seq<char>, at: int, a: Seq<char>, b: Seq<char>)
    requires
        placeholder_at(text, at, a),
        placeholder_at(text, at, b),
    ensures
        a == b,
{
    lemma_placeholder_chars(text, at, a);
    lemma_placeholder_chars(text, at, b);
    if a.len() < b.len() {
        assert(text[at + 2 + a.len()] == b[a.len() as int]);
        assert(is_name_char(b[a.len() as int]));
    } else if b.len() < a.len() {
        assert(text[at + 2 + b.len()] == a[b.len() as int]);
        assert(is_name_char(a[b.len() as int]));
    } else {
        assert forall|k: int| 0 <= k < a.len() implies a[k] == b[k] by {
            assert(text[at + 2 + k] == a[k]);
            assert(text[at + 2 + k] == b[k]);
        }
        assert(a =~= b);
    }
}

/// A text with a placeholder has a leftmost one.
pub proof fn lemma_leftmost_exists(text: Seq<char>, at: int, name: Seq<char>)
    requires
        placeholder_at(text, at, name),
    ensures
        exists|first: int, leftmost: Seq<char>| first <= at && is_first_placeholder(text, first, leftmost),
    decreases at,
{
    if exists|earlier: int, other: Seq<char>| earlier < at && placeholder_at(text, earlier, other) {
        let (earlier, other) = choose|earlier: int, other: Seq<char>|
            earlier < at && placeholder_at(text, earlier, other);
        lemma_leftmost_exists(text, earlier, other);
    } else {
        assert(is_first_placeholder(text, at, name));
    }
}

/// The leftmost placeholder is the one that `first_placeholder` names.
pub proof fn lemma_first_placeholder_is(text: Seq<char>, at: int, name: Seq<char>)
    requires
        is_first_placeholder(text, at, name),
    ensures
        first_placeholder(text) == Some(name),
{
    assert(has_placeholder(text));
    assert(leftmost_is(text, name));
    let chosen = choose|n: Seq<char>| leftmost_is(text, n);
    assert(leftmost_is(text, chosen));
    let i = choose|i: int| is_first_placeholder(text, i, chosen);
    assert(i == at);
    lemma_same_start_same_name(text, at, name, chosen);
}

/// What `first_placeholder` names is a name, and its token stands in the text
/// at the position of the leftmost placeholder.
pub proof fn lemma_first_placeholder_found(text: Seq<char>) -> (at: int)
    requires
        first_placeholder(text) is Some,
    ensures
        is_first_placeholder(text, at, first_placeholder(text)->0),
        is_name(first_placeholder(text)->0),
        contains(text, token(first_placeholder(text)->0)),
{
    let (i, n) = choose|i: int, n: Seq<char>| placeholder_at(text, i, n);
    lemma_leftmost_exists(text, i, n);
    let (first, leftmost) = choose|first: int, leftmost: Seq<char>|
        first <= i && is_first_placeholder(text, first, leftmost);
    lemma_first_placeholder_is(text, first, leftmost);
    first
}

fn name_char(c: char) -> (yes: bool)
    ensures
        yes == is_name_char(c),
{
    (c >= 'a' && c <= 'z') || (c >= 'A' && c <= 'Z') || (c >= '0' && c <= '9') || c == '_' || c == '.'
        || c == '-'
}

/// Where the leftmost placeholder of `text` starts and how long its name is.
pub fn find_placeholder(text: &Vec<char>) -> (found: Option<(usize, usize)>)
    ensures
        match found {
            Some((at, len)) => at + len + 3 <= text@.len() && is_first_placeholder(
                text@,
                at as int,
                text@.subrange(at + 2, at + 2 + len),
            ) && first_placeholder(text@) == Some(text@.subrange(at + 2, at + 2 + len)),
            None => !has_placeholder(text@) && first_placeholder(text@) is None,
        },
{
    let n = text.len();
    let mut at: usize = 0;
    while at < n
        invariant
            at <= n,
            n == text@.len(),
            forall|earlier: int, other: Seq<char>| earlier < at ==> !placeholder_at(text@, earlier, other),
        decreases n - at,
    {
        let mut end: usize = at;
        if text[at] == '$' && n - at >= 2 && text[at + 1] == '{' {
            end = at + 2;
            while end < n && name_char(text[end])
                invariant
                    at + 2 <= end <= n,
                    n == text@.len(),
                    forall|k: int| at + 2 <= k < end ==> is_name_char(#[trigger] text@[k]),
                decreases n - end,
            {
                end += 1;
            }
            if end > at + 2 && end < n && text[end] == '}' {
                let len = end - at - 2;
                proof {
                    lemma_placeholder_from_chars(text@, at as int, len as int);
                    lemma_first_placeholder_is(
                        text@,
                        at as int,
                        text@.subrange(at + 2, at + 2 + len),
                    );
                }
                return Some((at, len));
            }
        }
        proof {
            assert forall|other: Seq<char>| !placeholder_at(text@, at as int, other) by {
                if placeholder_at(text@, at as int, other) {
                    lemma_placeholder_chars(text@, at as int, other);
                    let stop = at + 2 + other.len();
                    assert(end >= at + 2);
                    if end < stop {
                        assert(is_name_char(text@[end as int]));
                    } else if end > stop {
                        assert(is_name_char(text@[stop]));
                    }
                }
            }
        }
        at += 1;
    }
    proof {
        assert forall|i: int, name: Seq<char>| !placeholder_at(text@, i, name) by {
            if placeholder_at(text@, i, name) {
                lemma_placeholder_chars(text@, i, name);
            }
        }
    }
    None
}

fn stands_at(text: &Vec<char>, at: usize, pattern: &Vec<char>) -> (yes: bool)
    requires
        at <= text@.len(),
        pattern@.len() <= text@.len() - at,
    ensures
        yes == occurs_at(text@, pattern@, at as int),
{
    let n = text.len();
    let mut k: usize = 0;
    while k < pattern.len()
        invariant
            k <= pattern@.len(),
            n == text@.len(),
            at <= text@.len(),
            pattern@.len() <= text@.len() - at,
            forall|j: int| 0 <= j < k ==> text@[at + j] == pattern@[j],
        decreases pattern@.len() - k,
    {
        if text[at + k] != pattern[k] {
            proof {
                let part = text@.subrange(at as int, at + pattern@.len());
                assert(part[k as int] == text@[at + k]);
            }
            return false;
        }
        k += 1;
    }
    proof {
        assert(text@.subrange(at as int, at + pattern@.len()) =~= pattern@);
    }
    true
}

fn append_all(out: &mut Vec<char>, more: &Vec<char>, from: usize)
    requires
        from <= more@.len(),
    ensures
        final(out)@ == old(out)@ + more@.subrange(from as int, more@.len() as int),
{
    let mut k: usize = from;
    while k < more.len()
        invariant
            from <= k <= more@.len(),
            out@ == old(out)@ + more@.subrange(from as int, k as int),
        decreases more@.len() - k,
    {
        out.push(more[k]);
        k += 1;
        proof {
            assert(out@ =~= old(out)@ + more@.subrange(from as int, k as int));
        }
    }
}

/// Replaces every occurrence of `pattern` in `text` by `with`.
pub fn replace_chars(text: &Vec<char>, pattern: &Vec<char>, with: &Vec<char>) -> (out: Vec<char>)
    ensures
        out@ == replace_all(text@, pattern@, with@),
{
    let n = text.len();
    let m = pattern.len();
    let mut out: Vec<char> = Vec::new();
    if m == 0 {
        append_all(&mut out, text, 0);
        proof {
            assert(out@ =~= text@);
        }
        return out;
    }
    let mut at: usize = 0;
    proof {
        assert(text@.subrange(0, n as int) =~= text@);
    }
    while n - at >= m
        invariant
            at <= n,
            n == text@.len(),
            m == pattern@.len(),
            m > 0,
            out@ + replace_all(text@.subrange(at as int, n as int), pattern@, with@) == replace_all(
                text@,
                pattern@,
                with@,
            ),
        decreases n - at,
    {
        let ghost rest = text@.subrange(at as int, n as int);
        let ghost before = out@;
        if stands_at(text, at, pattern) {
            append_all(&mut out, with, 0);
            proof {
                assert(with@.subrange(0, with@.len() as int) =~= with@);
                assert(rest.subrange(0, m as int) =~= text@.subrange(at as int, at + m));
                assert(rest.subrange(m as int, rest.len() as int) =~= text@.subrange(at + m, n as int));
                assert(out@ + replace_all(text@.subrange(at + m, n as int), pattern@, with@) =~= before
                    + replace_all(rest, pattern@, with@));
            }
            at += m;
        } else {
            out.push(text[at]);
            proof {
                assert(rest.subrange(0, m as int) =~= text@.subrange(at as int, at + m));
                assert(rest.subrange(1, rest.len() as int) =~= text@.subrange(at + 1, n as int));
                assert(rest.subrange(0, 1) =~= seq![text@[at as int]]);
                assert(out@ + replace_all(text@.subrange(at + 1, n as int), pattern@, with@) =~= before
                    + replace_all(rest, pattern@, with@));
            }
            at += 1;
        }
    }
    let ghost before = out@;
    append_all(&mut out, text, at);
    out
}

} // verus!
