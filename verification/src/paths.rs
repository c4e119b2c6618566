//! Sanitization of archive entry names.
//!
//! Entry names come from untrusted archive metadata. Before an entry may be
//! written below a target directory, its name is reduced to a safe relative
//! path: separators split the name into components, `.` and empty components
//! vanish, `..` pops the last accepted component (and rejects the name when
//! there is nothing left to pop), and components carrying a NUL byte or a
//! drive-letter colon reject the name outright. A name whose resolved path is
//! empty is rejected as well, so an accepted path always names something
//! strictly below the target directory.

use vstd::prelude::*;

verus! {

/// Both `/` and `\` act as separators inside archive entry names.
pub open spec fn is_sep(c: char) -> bool {
    c == '/' || c == '\\'
}

/// Characters never accepted inside a resolved path component.
pub open spec fn is_forbidden_char(c: char) -> bool {
    c == ':' || c == '\u{0}'
}

/// A component that resolves to "stay here": empty or `.`.
pub open spec fn comp_is_cur(c: Seq<char>) -> bool {
    c.len() == 0 || (c.len() == 1 && c[0] == '.')
}

/// The parent-traversal component `..`.
pub open spec fn comp_is_parent(c: Seq<char>) -> bool {
    c.len() == 2 && c[0] == '.' && c[1] == '.'
}

/// Whether a component carries a forbidden character.
pub open spec fn comp_has_forbidden(c: Seq<char>) -> bool {
    exists|j: int| 0 <= j < c.len() && is_forbidden_char(c[j])
}

/// Fold one raw component into the stack of components resolved so far;
/// `None` rejects the whole name.
pub open spec fn apply_component(stack: Seq<Seq<char>>, comp: Seq<char>) -> Option<Seq<Seq<char>>> {
    if comp_is_cur(comp) {
        Some(stack)
    } else if comp_is_parent(comp) {
        if stack.len() == 0 {
            None
        } else {
            Some(stack.drop_last())
        }
    } else if comp_has_forbidden(comp) {
        None
    } else {
        Some(stack.push(comp))
    }
}

/// Scan the name from position `i` with the components resolved so far in
/// `stack` and the characters of the current, unfinished component in `cur`.
pub open spec fn scan_name(
    name: Seq<char>,
    i: int,
    stack: Seq<Seq<char>>,
    cur: Seq<char>,
) -> Option<Seq<Seq<char>>>
    decreases name.len() - i,
{
    if i < 0 || i >= name.len() {
        apply_component(stack, cur)
    } else if is_sep(name[i]) {
        match apply_component(stack, cur) {
            Some(st) => scan_name(name, i + 1, st, Seq::empty()),
            None => None,
        }
    } else {
        scan_name(name, i + 1, stack, cur.push(name[i]))
    }
}

/// The sanitized relative path of an archive entry name, or `None` when the
/// name is rejected: it traverses above its root, carries a forbidden
/// character, or resolves to nothing at all.
pub open spec fn sanitize_spec(name: Seq<char>) -> Option<Seq<Seq<char>>> {
    match scan_name(name, 0, Seq::empty(), Seq::empty()) {
        Some(st) => if st.len() == 0 {
            None
        } else {
            Some(st)
        },
        None => None,
    }
}

/// A component that may appear in an accepted path: nonempty, no separator,
/// no forbidden character, and neither `.` nor `..`.
pub open spec fn component_is_safe(c: Seq<char>) -> bool {
    &&& c.len() > 0
    &&& !comp_is_cur(c)
    &&& !comp_is_parent(c)
    &&& !comp_has_forbidden(c)
    &&& forall|j: int| 0 <= j < c.len() ==> !is_sep(#[trigger] c[j])
}

/// Every component of the path is safe.
pub open spec fn path_is_safe(p: Seq<Seq<char>>) -> bool {
    forall|k: int| 0 <= k < p.len() ==> component_is_safe(#[trigger] p[k])
}

proof fn lemma_scan_safe(name: Seq<char>, i: int, stack: Seq<Seq<char>>, cur: Seq<char>)
    requires
        path_is_safe(stack),
        forall|j: int| 0 <= j < cur.len() ==> !is_sep(#[trigger] cur[j]),
    ensures
        scan_name(name, i, stack, cur) matches Some(st) ==> path_is_safe(st),
    decreases name.len() - i,
{
    if i < 0 || i >= name.len() {
        if scan_name(name, i, stack, cur) is Some {
            let st = apply_component(stack, cur)->Some_0;
            if !comp_is_cur(cur) && !comp_is_parent(cur) && !comp_has_forbidden(cur) {
                assert(forall|k: int| 0 <= k < st.len() ==> component_is_safe(#[trigger] st[k]));
            }
        }
    } else if is_sep(name[i]) {
        if apply_component(stack, cur) is Some {
            let st = apply_component(stack, cur)->Some_0;
            if !comp_is_cur(cur) && !comp_is_parent(cur) && !comp_has_forbidden(cur) {
                assert(path_is_safe(st));
            }
            lemma_scan_safe(name, i + 1, st, Seq::empty());
        }
    } else {
        lemma_scan_safe(name, i + 1, stack, cur.push(name[i]));
    }
}

/// The sanitizer only ever accepts safe, nonempty relative paths: no `..` or
/// `.` component, no empty component, no separator or forbidden character
/// inside a component. Joined below a target directory, such a path can only
/// name something strictly inside that directory.
pub proof fn lemma_sanitize_safe(name: Seq<char>)
    ensures
        sanitize_spec(name) matches Some(p) ==> p.len() > 0 && path_is_safe(p),
{
    lemma_scan_safe(name, 0, Seq::empty(), Seq::empty());
}

/// Fold the component `raw[start..end]` into `stack`; a `false` result
/// rejects the whole name.
fn flush_component(stack: &mut Vec<String>, raw: &str, start: usize, end: usize) -> (ok: bool)
    requires
        start <= end <= raw@.len(),
    ensures
        ok ==> apply_component(old(stack).deep_view(), raw@.subrange(start as int, end as int))
            == Some(final(stack).deep_view()),
        !ok ==> apply_component(old(stack).deep_view(), raw@.subrange(start as int, end as int))
            is None,
{
    let ghost comp = raw@.subrange(start as int, end as int);
    let l = end - start;
    if l == 0 || (l == 1 && raw.get_char(start) == '.') {
        assert(comp_is_cur(comp));
        return true;
    }
    if l == 2 && raw.get_char(start) == '.' && raw.get_char(start + 1) == '.' {
        assert(comp_is_parent(comp));
        if stack.len() == 0 {
            return false;
        }
        stack.pop();
        assert(stack.deep_view() =~= old(stack).deep_view().drop_last());
        return true;
    }
    assert(!comp_is_cur(comp) && !comp_is_parent(comp));
    let mut j: usize = 0;
    while j < l
        invariant
            l == comp.len(),
            start + l == end <= raw@.len(),
            j <= l,
            comp == raw@.subrange(start as int, end as int),
            forall|k: int| 0 <= k < j ==> !is_forbidden_char(#[trigger] comp[k]),
        decreases l - j,
    {
        let c = raw.get_char(start + j);
        if c == ':' || c == '\u{0}' {
            assert(comp[j as int] == raw@[start as int + j as int]);
            assert(comp_has_forbidden(comp));
            return false;
        }
        j += 1;
    }
    assert(!comp_has_forbidden(comp));
    let piece = raw.substring_char(start, end);
    stack.push(piece.to_owned());
    assert(stack.deep_view() =~= old(stack).deep_view().push(comp));
    return true;
}

/// Reduce an untrusted archive entry name to a safe relative path, or reject
/// it. The result mirrors `sanitize_spec` exactly.
pub fn sanitize(raw: &str) -> (r: Option<Vec<String>>)
    ensures
        r is Some <==> sanitize_spec(raw@) is Some,
        r matches Some(v) ==> sanitize_spec(raw@) == Some(v.deep_view()),
{
    let n = raw.unicode_len();
    let mut stack: Vec<String> = Vec::new();
    let mut start: usize = 0;
    let mut i: usize = 0;
    assert(raw@.subrange(0, 0) =~= Seq::<char>::empty());
    assert(stack.deep_view() =~= Seq::<Seq<char>>::empty());
    while i < n
        invariant
            n == raw@.len(),
            start <= i <= n,
            scan_name(raw@, 0, Seq::empty(), Seq::empty()) == scan_name(
                raw@,
                i as int,
                stack.deep_view(),
                raw@.subrange(start as int, i as int),
            ),
        decreases n - i,
    {
        let c = raw.get_char(i);
        if c == '/' || c == '\\' {
            if !flush_component(&mut stack, raw, start, i) {
                return None;
            }
            start = i + 1;
            assert(raw@.subrange(start as int, start as int) =~= Seq::<char>::empty());
        } else {
            assert(raw@.subrange(start as int, i as int + 1) =~= raw@.subrange(
                start as int,
                i as int,
            ).push(raw@[i as int]));
        }
        i += 1;
    }
    if !flush_component(&mut stack, raw, start, n) {
        return None;
    }
    if stack.len() == 0 {
        return None;
    }
    Some(stack)
}

} // verus!
