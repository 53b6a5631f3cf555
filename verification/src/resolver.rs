use vstd::prelude::*;
use crate::name_map::{lemma_pairing_domain, NameMap};
use crate::placeholder::{
    contains, find_placeholder, first_placeholder, has_placeholder, is_name, is_name_char,
    lemma_first_placeholder_found, lemma_placeholder_chars, lemma_same_start_same_name, occurs_at,
    placeholder_at, replace_all, replace_chars, token,
};
use crate::text::{chars_of, lemma_push_to_set, str_eq, texts};

verus! {

/// What a placeholder for `name` is replaced by: the local variable of that
/// name, else the global one, else nothing.
pub open spec fn lookup(
    locals: Map<Seq<char>, String>,
    globals: Map<Seq<char>, String>,
    name: Seq<char>,
) -> Seq<char> {
    if locals.contains_key(name) {
        locals[name]@
    } else if globals.contains_key(name) {
        globals[name]@
    } else {
        Seq::empty()
    }
}

/// How many variable names have not been tried yet.
pub open spec fn untried(
    locals: Map<Seq<char>, String>,
    globals: Map<Seq<char>, String>,
    tried: Set<Seq<char>>,
) -> nat {
    locals.dom().union(globals.dom()).difference(tried).len()
}

/// Resolution from a state: as long as the text has a placeholder whose name
/// was not tried before, every occurrence of the leftmost placeholder is
/// replaced and its name counts as tried. A leftmost placeholder whose name
/// was tried before stops the resolution with the text as it is.
pub open spec fn resolve_from(
    text: Seq<char>,
    tried: Set<Seq<char>>,
    locals: Map<Seq<char>, String>,
    globals: Map<Seq<char>, String>,
) -> Seq<char>
    decreases untried(locals, globals, tried), text.len(),
    when locals.dom().finite() && globals.dom().finite()
    via resolve_from_decreases
{
    match first_placeholder(text) {
        None => text,
        Some(name) => if tried.contains(name) {
            text
        } else {
            resolve_from(
                replace_all(text, token(name), lookup(locals, globals, name)),
                tried.insert(name),
                locals,
                globals,
            )
        },
    }
}

/// Resolution of a text against local and global variables.
pub open spec fn resolve(
    text: Seq<char>,
    locals: Map<Seq<char>, String>,
    globals: Map<Seq<char>, String>,
) -> Seq<char> {
    resolve_from(text, Set::empty(), locals, globals)
}

#[via_fn]
proof fn resolve_from_decreases(
    text: Seq<char>,
    tried: Set<Seq<char>>,
    locals: Map<Seq<char>, String>,
    globals: Map<Seq<char>, String>,
) {
    if first_placeholder(text) is Some && !tried.contains(first_placeholder(text)->0) {
        lemma_step_decreases(text, tried, locals, globals);
    }
}

/// Removing every occurrence of a pattern never makes a text longer.
pub proof fn lemma_removal_no_longer(text: Seq<char>, pattern: Seq<char>)
    ensures
        replace_all(text, pattern, Seq::empty()).len() <= text.len(),
    decreases text.len(),
{
    if pattern.len() == 0 || text.len() < pattern.len() {
    } else if text.subrange(0, pattern.len() as int) == pattern {
        lemma_removal_no_longer(text.subrange(pattern.len() as int, text.len() as int), pattern);
    } else {
        lemma_removal_no_longer(text.subrange(1, text.len() as int), pattern);
    }
}

/// An occurrence in a text is an occurrence in what is left of it after a
/// cut before the occurrence.
pub proof fn lemma_occurs_after_cut(text: Seq<char>, pattern: Seq<char>, at: int, cut: int)
    requires
        occurs_at(text, pattern, at),
        0 <= cut <= at,
    ensures
        occurs_at(text.subrange(cut, text.len() as int), pattern, at - cut),
{
    assert(text.subrange(cut, text.len() as int).subrange(at - cut, at - cut + pattern.len())
        =~= text.subrange(at, at + pattern.len()));
}

/// An occurrence in the second part of a joined text.
pub proof fn lemma_occurs_shifted(head: Seq<char>, tail: Seq<char>, pattern: Seq<char>, at: int)
    requires
        occurs_at(tail, pattern, at),
    ensures
        occurs_at(head + tail, pattern, head.len() + at),
        contains(head + tail, pattern),
{
    assert((head + tail).subrange(head.len() + at, head.len() + at + pattern.len())
        =~= tail.subrange(at, at + pattern.len()));
}

/// An occurrence in the first part of a joined text.
pub proof fn lemma_occurs_kept(head: Seq<char>, tail: Seq<char>, pattern: Seq<char>, at: int)
    requires
        occurs_at(head, pattern, at),
    ensures
        occurs_at(head + tail, pattern, at),
        contains(head + tail, pattern),
{
    assert((head + tail).subrange(at, at + pattern.len()) =~= head.subrange(at, at + pattern.len()));
}

/// Removing a pattern that occurs makes the text shorter.
pub proof fn lemma_removal_shrinks(text: Seq<char>, pattern: Seq<char>, at: int)
    requires
        pattern.len() > 0,
        occurs_at(text, pattern, at),
    ensures
        replace_all(text, pattern, Seq::empty()).len() < text.len(),
    decreases text.len(),
{
    if text.subrange(0, pattern.len() as int) == pattern {
        lemma_removal_no_longer(text.subrange(pattern.len() as int, text.len() as int), pattern);
    } else {
        if at == 0 {
            assert(text.subrange(0, pattern.len() as int) == pattern);
        }
        lemma_occurs_after_cut(text, pattern, at, 1);
        lemma_removal_shrinks(text.subrange(1, text.len() as int), pattern, at - 1);
    }
}

/// One step of the resolution brings it nearer to its end: either one more
/// variable has been tried, or the text is shorter.
pub proof fn lemma_step_decreases(
    text: Seq<char>,
    tried: Set<Seq<char>>,
    locals: Map<Seq<char>, String>,
    globals: Map<Seq<char>, String>,
)
    requires
        locals.dom().finite(),
        globals.dom().finite(),
        first_placeholder(text) is Some,
        !tried.contains(first_placeholder(text)->0),
    ensures
        ({
            let name = first_placeholder(text)->0;
            let next = replace_all(text, token(name), lookup(locals, globals, name));
            let after = untried(locals, globals, tried.insert(name));
            let before = untried(locals, globals, tried);
            after < before || (after == before && next.len() < text.len())
        }),
{
    let name = first_placeholder(text)->0;
    let keys = locals.dom().union(globals.dom());
    let left = keys.difference(tried);
    assert(keys.finite());
    assert(left.finite());
    if keys.contains(name) {
        assert(left.contains(name));
        assert(keys.difference(tried.insert(name)) =~= left.remove(name));
    } else {
        assert(keys.difference(tried.insert(name)) =~= left);
        let at = lemma_first_placeholder_found(text);
        assert(lookup(locals, globals, name) =~= Seq::<char>::empty());
        lemma_removal_shrinks(text, token(name), at);
    }
}

fn text_of(chars: &Vec<char>) -> (s: String)
    ensures
        s@ == chars@,
{
    let mut s = String::new();
    let mut k: usize = 0;
    while k < chars.len()
        invariant
            k <= chars@.len(),
            s@ == chars@.take(k as int),
        decreases chars@.len() - k,
    {
        s.push(chars[k]);
        k += 1;
        proof {
            assert(s@ =~= chars@.take(k as int));
        }
    }
    proof {
        assert(chars@.take(k as int) =~= chars@);
    }
    s
}

fn copy_range(text: &Vec<char>, from: usize, to: usize) -> (out: Vec<char>)
    requires
        from <= to <= text@.len(),
    ensures
        out@ == text@.subrange(from as int, to as int),
{
    let mut out: Vec<char> = Vec::new();
    let mut k: usize = from;
    while k < to
        invariant
            from <= k <= to <= text@.len(),
            out@ == text@.subrange(from as int, k as int),
        decreases to - k,
    {
        out.push(text[k]);
        k += 1;
        proof {
            assert(out@ =~= text@.subrange(from as int, k as int));
        }
    }
    out
}

fn was_tried(tried: &Vec<String>, name: &str) -> (yes: bool)
    ensures
        yes == texts(tried@).to_set().contains(name@),
{
    let mut k: usize = 0;
    while k < tried.len()
        invariant
            k <= tried@.len(),
            forall|j: int| 0 <= j < k ==> texts(tried@)[j] != name@,
        decreases tried@.len() - k,
    {
        if str_eq(tried[k].as_str(), name) {
            proof {
                assert(texts(tried@)[k as int] == name@);
                assert(texts(tried@).contains(name@));
            }
            return true;
        }
        k += 1;
    }
    proof {
        if texts(tried@).contains(name@) {
            let j = choose|j: int| 0 <= j < texts(tried@).len() && texts(tried@)[j] == name@;
            assert(texts(tried@)[j] != name@);
        }
    }
    false
}

/// Replaces the placeholders of `input` by the variables they name.
///
/// A placeholder is a dollar sign and a name in braces; the name is made of
/// ASCII letters, digits, `_`, `.` and `-`. The leftmost placeholder is
/// looked up in `locals`, then in `globals`; a name that neither holds gives
/// the empty text. Every occurrence of that placeholder is replaced, and the
/// search starts again on the new text. A leftmost placeholder whose name was
/// replaced before ends the work, and the text is returned as it then is.
pub fn resolve_text(input: &str, locals: &NameMap<String>, globals: &NameMap<String>) -> (out: String)
    ensures
        out@ == resolve(input@, locals@, globals@),
{
    let mut text = chars_of(input);
    let mut tried: Vec<String> = Vec::new();
    let mut done = false;
    proof {
        lemma_pairing_domain(locals.names(), locals.items());
        lemma_pairing_domain(globals.names(), globals.items());
        assert(texts(tried@).to_set() =~= Set::<Seq<char>>::empty());
    }
    while !done
        invariant
            locals@.dom().finite(),
            globals@.dom().finite(),
            resolve_from(text@, texts(tried@).to_set(), locals@, globals@) == resolve(
                input@,
                locals@,
                globals@,
            ),
            done ==> resolve_from(text@, texts(tried@).to_set(), locals@, globals@) == text@,
        decreases
                (if done {
                    0int
                } else {
                    1int
                }),
                untried(locals@, globals@, texts(tried@).to_set()),
                text@.len(),
    {
        match find_placeholder(&text) {
            None => {
                done = true;
            },
            Some((at, len)) => {
                let size = text.len();
                assert(at + len + 3 <= size);
                let name = text_of(&copy_range(&text, at + 2, at + 2 + len));
                if was_tried(&tried, name.as_str()) {
                    done = true;
                } else {
                    let pattern = copy_range(&text, at, at + len + 3);
                    let with = match locals.get(name.as_str()) {
                        Some(value) => chars_of(value.as_str()),
                        None => match globals.get(name.as_str()) {
                            Some(value) => chars_of(value.as_str()),
                            None => Vec::new(),
                        },
                    };
                    proof {
                        lemma_step_decreases(text@, texts(tried@).to_set(), locals@, globals@);
                        lemma_placeholder_chars(text@, at as int, name@);
                        crate::placeholder::lemma_placeholder_from_chars(text@, at as int, len as int);
                        assert(with@ == lookup(locals@, globals@, name@));
                    }
                    let ghost before = tried@;
                    text = replace_chars(&text, &pattern, &with);
                    tried.push(name);
                    proof {
                        assert(texts(tried@) =~= texts(before).push(name@));
                        lemma_push_to_set(texts(before), name@);
                    }
                }
            },
        }
    }
    text_of(&text)
}

/// A text without a placeholder is its own resolution.
pub proof fn lemma_resolve_settled(
    text: Seq<char>,
    locals: Map<Seq<char>, String>,
    globals: Map<Seq<char>, String>,
)
    requires
        locals.dom().finite(),
        globals.dom().finite(),
        !has_placeholder(text),
    ensures
        resolve(text, locals, globals) == text,
{
}

/// Resolution is idempotent once no placeholder remains: where the result of
/// resolving a text holds no placeholder, resolving that result again gives
/// the same text.
pub proof fn lemma_resolve_idempotent(
    text: Seq<char>,
    locals: Map<Seq<char>, String>,
    globals: Map<Seq<char>, String>,
)
    requires
        locals.dom().finite(),
        globals.dom().finite(),
        !has_placeholder(resolve(text, locals, globals)),
    ensures
        resolve(resolve(text, locals, globals), locals, globals) == resolve(text, locals, globals),
{
    lemma_resolve_settled(resolve(text, locals, globals), locals, globals);
}

/// A name that the local variables hold is replaced by the local value,
/// whatever the global variables say of it.
pub proof fn lemma_local_value_wins(
    locals: Map<Seq<char>, String>,
    globals: Map<Seq<char>, String>,
    name: Seq<char>,
)
    requires
        locals.contains_key(name),
    ensures
        lookup(locals, globals, name) == locals[name]@,
{
}

/// Local variables are never overridden by global ones: two sets of global
/// variables that differ only under names that the local variables hold give
/// the same resolution of every text.
pub proof fn lemma_profile_precedence(
    text: Seq<char>,
    tried: Set<Seq<char>>,
    locals: Map<Seq<char>, String>,
    globals: Map<Seq<char>, String>,
    others: Map<Seq<char>, String>,
)
    requires
        locals.dom().finite(),
        globals.dom().finite(),
        others.dom().finite(),
        forall|k: Seq<char>|
            !locals.contains_key(k) ==> (globals.contains_key(k) == others.contains_key(k) && (
            globals.contains_key(k) ==> globals[k]@ == others[k]@)),
    ensures
        resolve_from(text, tried, locals, globals) == resolve_from(text, tried, locals, others),
    decreases untried(locals, globals, tried), text.len(),
{
    if first_placeholder(text) is Some && !tried.contains(first_placeholder(text)->0) {
        let name = first_placeholder(text)->0;
        lemma_step_decreases(text, tried, locals, globals);
        assert(lookup(locals, globals, name) == lookup(locals, others, name));
        lemma_profile_precedence(
            replace_all(text, token(name), lookup(locals, globals, name)),
            tried.insert(name),
            locals,
            globals,
            others,
        );
    }
}

/// Where a pattern stands nowhere before position `upto`, the replacement
/// copies the text up to there.
pub proof fn lemma_replace_copies_prefix(
    text: Seq<char>,
    pattern: Seq<char>,
    with: Seq<char>,
    upto: int,
)
    requires
        pattern.len() > 0,
        0 <= upto <= text.len(),
        forall|p: int| 0 <= p < upto ==> !occurs_at(text, pattern, p),
    ensures
        replace_all(text, pattern, with) == text.subrange(0, upto) + replace_all(
            text.subrange(upto, text.len() as int),
            pattern,
            with,
        ),
    decreases upto,
{
    let n = text.len() as int;
    if upto == 0 {
        assert(text.subrange(0, n) =~= text);
        assert(text.subrange(0, 0) + replace_all(text, pattern, with) =~= replace_all(
            text,
            pattern,
            with,
        ));
    } else if text.len() < pattern.len() {
        assert(text.subrange(0, upto) + text.subrange(upto, n) =~= text);
    } else {
        assert(!occurs_at(text, pattern, 0));
        let rest = text.subrange(1, n);
        assert forall|p: int| 0 <= p < upto - 1 implies !occurs_at(rest, pattern, p) by {
            if occurs_at(rest, pattern, p) {
                assert(text.subrange(p + 1, p + 1 + pattern.len()) =~= rest.subrange(
                    p,
                    p + pattern.len(),
                ));
                assert(occurs_at(text, pattern, p + 1));
            }
        }
        lemma_replace_copies_prefix(rest, pattern, with, upto - 1);
        assert(rest.subrange(upto - 1, rest.len() as int) =~= text.subrange(upto, n));
        assert(text.subrange(0, 1) + rest.subrange(0, upto - 1) =~= text.subrange(0, upto));
        assert(text.subrange(0, 1) + (rest.subrange(0, upto - 1) + replace_all(
            text.subrange(upto, n),
            pattern,
            with,
        )) =~= text.subrange(0, upto) + replace_all(text.subrange(upto, n), pattern, with));
    }
}

/// The dollar sign of a token is its first character and no other.
pub proof fn lemma_token_one_dollar(name: Seq<char>, at: int)
    requires
        is_name(name),
        0 < at < token(name).len(),
    ensures
        token(name)[at] != '$',
{
    let t = token(name);
    if at == 1 {
    } else if at < name.len() + 2 {
        assert(t[at] == name[at - 2]);
        assert(is_name_char(name[at - 2]));
    } else {
    }
}

/// Replacing the placeholders of one name leaves those of another name
/// standing.
pub proof fn lemma_other_token_stays(
    text: Seq<char>,
    name: Seq<char>,
    replaced: Seq<char>,
    with: Seq<char>,
    at: int,
)
    requires
        is_name(name),
        is_name(replaced),
        name != replaced,
        occurs_at(text, token(name), at),
    ensures
        contains(replace_all(text, token(replaced), with), token(name)),
    decreases text.len(),
{
    let mine = token(name);
    let theirs = token(replaced);
    let n = text.len() as int;
    let m = theirs.len() as int;
    if text.len() < theirs.len() {
    } else if text.subrange(0, m) == theirs {
        assert(occurs_at(text, theirs, 0));
        if at == 0 {
            lemma_same_start_same_name(text, 0, name, replaced);
        }
        if 0 < at < m {
            assert(text.subrange(at, at + mine.len())[0] == mine[0]);
            assert(text.subrange(0, m)[at] == theirs[at]);
            lemma_token_one_dollar(replaced, at);
        }
        let rest = text.subrange(m, n);
        lemma_occurs_after_cut(text, mine, at, m);
        lemma_other_token_stays(rest, name, replaced, with, at - m);
        let inner = choose|i: int| occurs_at(replace_all(rest, theirs, with), mine, i);
        lemma_occurs_shifted(with, replace_all(rest, theirs, with), mine, inner);
    } else if at >= 1 {
        let rest = text.subrange(1, n);
        lemma_occurs_after_cut(text, mine, at, 1);
        lemma_other_token_stays(rest, name, replaced, with, at - 1);
        let inner = choose|i: int| occurs_at(replace_all(rest, theirs, with), mine, i);
        lemma_occurs_shifted(text.subrange(0, 1), replace_all(rest, theirs, with), mine, inner);
    } else {
        let k = mine.len() as int;
        assert forall|p: int| 0 <= p < k implies !occurs_at(text, theirs, p) by {
            if occurs_at(text, theirs, p) {
                if p == 0 {
                } else {
                    assert(text.subrange(p, p + m)[0] == theirs[0]);
                    assert(text.subrange(0, k)[p] == mine[p]);
                    lemma_token_one_dollar(name, p);
                }
            }
        }
        lemma_replace_copies_prefix(text, theirs, with, k);
        assert(occurs_at(text.subrange(0, k), mine, 0)) by {
            assert(text.subrange(0, k).subrange(0, k) =~= text.subrange(0, k));
        }
        lemma_occurs_kept(
            text.subrange(0, k),
            replace_all(text.subrange(k, n), theirs, with),
            mine,
            0,
        );
    }
}

/// Where the replacement itself holds a pattern, replacing something that
/// occurs leaves that pattern in the result.
pub proof fn lemma_replacement_shows(
    text: Seq<char>,
    pattern: Seq<char>,
    with: Seq<char>,
    inner: Seq<char>,
    at: int,
)
    requires
        pattern.len() > 0,
        occurs_at(text, pattern, at),
        contains(with, inner),
    ensures
        contains(replace_all(text, pattern, with), inner),
    decreases text.len(),
{
    let n = text.len() as int;
    let m = pattern.len() as int;
    if text.subrange(0, m) == pattern {
        let j = choose|j: int| occurs_at(with, inner, j);
        lemma_occurs_kept(with, replace_all(text.subrange(m, n), pattern, with), inner, j);
    } else {
        if at == 0 {
            assert(text.subrange(0, m) == pattern);
        }
        let rest = text.subrange(1, n);
        lemma_occurs_after_cut(text, pattern, at, 1);
        lemma_replacement_shows(rest, pattern, with, inner, at - 1);
        let j = choose|j: int| occurs_at(replace_all(rest, pattern, with), inner, j);
        lemma_occurs_shifted(text.subrange(0, 1), replace_all(rest, pattern, with), inner, j);
    }
}

/// A placeholder whose name was tried stays in the text to the end of the
/// resolution.
pub proof fn lemma_tried_token_stays(
    text: Seq<char>,
    tried: Set<Seq<char>>,
    locals: Map<Seq<char>, String>,
    globals: Map<Seq<char>, String>,
    name: Seq<char>,
)
    requires
        locals.dom().finite(),
        globals.dom().finite(),
        is_name(name),
        tried.contains(name),
        contains(text, token(name)),
    ensures
        contains(resolve_from(text, tried, locals, globals), token(name)),
        has_placeholder(resolve_from(text, tried, locals, globals)),
    decreases untried(locals, globals, tried), text.len(),
{
    let at = choose|at: int| occurs_at(text, token(name), at);
    assert(placeholder_at(text, at, name));
    assert(first_placeholder(text) is Some);
    let first = first_placeholder(text)->0;
    let leftmost = lemma_first_placeholder_found(text);
    if !tried.contains(first) {
        lemma_step_decreases(text, tried, locals, globals);
        let next = replace_all(text, token(first), lookup(locals, globals, first));
        lemma_other_token_stays(text, name, first, lookup(locals, globals, first), at);
        lemma_tried_token_stays(next, tried.insert(first), locals, globals, name);
    }
    let end = resolve_from(text, tried, locals, globals);
    let stays = choose|i: int| occurs_at(end, token(name), i);
    assert(placeholder_at(end, stays, name));
}

/// A variable that refers to itself ends the resolution with its placeholder
/// unresolved: where the leftmost placeholder of a text names a variable
/// whose value holds a placeholder for the same name, the resolution of the
/// text still holds that placeholder.
pub proof fn lemma_cycle_keeps_placeholder(
    text: Seq<char>,
    locals: Map<Seq<char>, String>,
    globals: Map<Seq<char>, String>,
    name: Seq<char>,
)
    requires
        locals.dom().finite(),
        globals.dom().finite(),
        first_placeholder(text) == Some(name),
        contains(lookup(locals, globals, name), token(name)),
    ensures
        contains(resolve(text, locals, globals), token(name)),
        has_placeholder(resolve(text, locals, globals)),
{
    let at = lemma_first_placeholder_found(text);
    let value = lookup(locals, globals, name);
    let next = replace_all(text, token(name), value);
    lemma_replacement_shows(text, token(name), value, token(name), at);
    let tried = Set::<Seq<char>>::empty().insert(name);
    lemma_tried_token_stays(next, tried, locals, globals, name);
}

} // verus!
