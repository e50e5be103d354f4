//! Path safety validator: rejects archive entry names that could escape
//! the destination root (directory traversal, "zip-slip").
//!
//! A raw stored name is decomposed at `/` separators and resolution is
//! simulated with a virtual stack: an empty or `.` component is a no-op, a
//! normal component is pushed, and `..` pops — popping an empty stack means
//! the name climbs above the destination root, so validation fails, no
//! matter what follows. Names containing a null byte and absolute names are
//! rejected outright.

use vstd::prelude::*;

verus! {

/// Splits the characters of a name at `/` separators; `i` scans the name
/// and `cur` accumulates the segment begun so far.
pub open spec fn split_acc(s: Seq<char>, i: int, cur: Seq<char>) -> Seq<Seq<char>>
    decreases s.len() - i,
{
    if i < 0 || i >= s.len() {
        seq![cur]
    } else if s[i] == '/' {
        seq![cur] + split_acc(s, i + 1, Seq::empty())
    } else {
        split_acc(s, i + 1, cur.push(s[i]))
    }
}

/// The components of a name: its maximal `/`-free segments, in order.
/// A trailing separator yields a trailing empty component.
pub open spec fn path_components(s: Seq<char>) -> Seq<Seq<char>> {
    split_acc(s, 0, Seq::empty())
}

/// A component that names an entry of a directory, rather than the
/// directory itself (`.`, the empty segment) or its parent (`..`).
pub open spec fn is_normal_component(c: Seq<char>) -> bool {
    c.len() > 0 && c != seq!['.'] && c != seq!['.', '.']
}

/// Simulated resolution of `comps` on top of the already-accepted stack:
/// `None` means the name climbs above the destination root.
pub open spec fn resolve_onto(stack: Seq<Seq<char>>, comps: Seq<Seq<char>>) -> Option<
    Seq<Seq<char>>,
>
    decreases comps.len(),
{
    if comps.len() == 0 {
        Some(stack)
    } else {
        let c = comps[0];
        if c.len() == 0 || c == seq!['.'] {
            resolve_onto(stack, comps.drop_first())
        } else if c == seq!['.', '.'] {
            if stack.len() == 0 {
                None
            } else {
                resolve_onto(stack.drop_last(), comps.drop_first())
            }
        } else {
            resolve_onto(stack.push(c), comps.drop_first())
        }
    }
}

/// What a raw stored name resolves to below the destination root: the
/// stack of accepted segments, or `None` when the name is rejected.
pub open spec fn resolve_path(name: Seq<char>) -> Option<Seq<Seq<char>>> {
    if name.contains('\0') || (name.len() > 0 && name[0] == '/') {
        None
    } else {
        resolve_onto(Seq::empty(), path_components(name))
    }
}

/// A name the validator accepts.
pub open spec fn is_safe_name(name: Seq<char>) -> bool {
    resolve_path(name) is Some
}

/// Any name containing a null byte is rejected.
pub proof fn lemma_null_byte_rejected(name: Seq<char>)
    requires
        name.contains('\0'),
    ensures
        !is_safe_name(name),
{
}

/// Any absolute-prefixed name is rejected.
pub proof fn lemma_absolute_rejected(name: Seq<char>)
    requires
        name.len() > 0,
        name[0] == '/',
    ensures
        !is_safe_name(name),
{
}

/// Every component of an accepted, resolved path is a normal segment — in
/// particular no `..` survives resolution, so a resolved path never leaves
/// the destination root it is joined onto.
pub proof fn lemma_resolved_path_confined(name: Seq<char>, resolved: Seq<Seq<char>>)
    requires
        resolve_path(name) == Some(resolved),
    ensures
        forall|i: int| 0 <= i < resolved.len() ==> is_normal_component(#[trigger] resolved[i]),
{
    lemma_resolve_onto_normal(Seq::empty(), path_components(name), resolved);
}

/// Helper: resolution only ever pushes normal components onto the stack.
proof fn lemma_resolve_onto_normal(
    stack: Seq<Seq<char>>,
    comps: Seq<Seq<char>>,
    resolved: Seq<Seq<char>>,
)
    requires
        forall|i: int| 0 <= i < stack.len() ==> is_normal_component(#[trigger] stack[i]),
        resolve_onto(stack, comps) == Some(resolved),
    ensures
        forall|i: int| 0 <= i < resolved.len() ==> is_normal_component(#[trigger] resolved[i]),
    decreases comps.len(),
{
    if comps.len() == 0 {
    } else {
        let c = comps[0];
        if c.len() == 0 || c == seq!['.'] {
            lemma_resolve_onto_normal(stack, comps.drop_first(), resolved);
        } else if c == seq!['.', '.'] {
            lemma_resolve_onto_normal(stack.drop_last(), comps.drop_first(), resolved);
        } else {
            lemma_resolve_onto_normal(stack.push(c), comps.drop_first(), resolved);
        }
    }
}

/// Whether `name` holds a null character.
fn contains_nul(name: &str) -> (r: bool)
    ensures
        r == name@.contains('\0'),
{
    let len = name.unicode_len();
    let mut i: usize = 0;
    while i < len
        invariant
            i <= len,
            len == name@.len(),
            forall|j: int| 0 <= j < i ==> name@[j] != '\0',
        decreases len - i,
    {
        if name.get_char(i) == '\0' {
            return true;
        }
        i = i + 1;
    }
    false
}

/// Splits `name` into its `/`-separated components.
fn split_components(name: &str) -> (comps: Vec<String>)
    ensures
        comps.deep_view() == path_components(name@),
{
    let len = name.unicode_len();
    let mut comps: Vec<String> = Vec::new();
    let mut seg_start: usize = 0;
    let mut i: usize = 0;
    proof {
        assert(name@.subrange(0, 0) =~= Seq::<char>::empty());
        assert(comps.deep_view() =~= Seq::<Seq<char>>::empty());
        assert(comps.deep_view() + split_acc(name@, 0, Seq::empty()) =~= split_acc(
            name@,
            0,
            Seq::empty(),
        ));
    }
    while i < len
        invariant
            seg_start <= i <= len,
            len == name@.len(),
            path_components(name@) == comps.deep_view() + split_acc(
                name@,
                i as int,
                name@.subrange(seg_start as int, i as int),
            ),
        decreases len - i,
    {
        let ghost prev = comps.deep_view();
        let ghost cur = name@.subrange(seg_start as int, i as int);
        if name.get_char(i) == '/' {
            let seg = name.substring_char(seg_start, i).to_owned();
            comps.push(seg);
            proof {
                assert(comps.deep_view() =~= prev.push(cur));
                assert(seq![cur] + split_acc(name@, i as int + 1, Seq::empty()) =~= prev.push(
                    cur,
                ).skip(prev.len() as int) + split_acc(name@, i as int + 1, Seq::empty()));
                assert(comps.deep_view() + split_acc(name@, i as int + 1, Seq::empty()) =~= prev
                    + (seq![cur] + split_acc(name@, i as int + 1, Seq::empty())));
                assert(name@.subrange(i as int + 1, i as int + 1) =~= Seq::<char>::empty());
            }
            seg_start = i + 1;
        } else {
            proof {
                assert(name@.subrange(seg_start as int, i as int + 1) =~= cur.push(name@[i as int]));
            }
        }
        i = i + 1;
    }
    let seg = name.substring_char(seg_start, len).to_owned();
    let ghost prev = comps.deep_view();
    let ghost cur = name@.subrange(seg_start as int, len as int);
    comps.push(seg);
    proof {
        assert(comps.deep_view() =~= prev.push(cur));
        assert(prev.push(cur) =~= prev + seq![cur]);
    }
    comps
}

/// Whether the component `c` equals the one-character segment `.`.
fn is_cur_dir(c: &str) -> (r: bool)
    ensures
        r == (c@ == seq!['.']),
{
    if c.unicode_len() == 1 && c.get_char(0) == '.' {
        proof {
            assert(c@ =~= seq!['.']);
        }
        true
    } else {
        proof {
            assert(c@ == seq!['.'] ==> c@.len() == 1 && c@[0] == '.');
        }
        false
    }
}

/// Whether the component `c` equals the parent-directory segment `..`.
fn is_parent_dir(c: &str) -> (r: bool)
    ensures
        r == (c@ == seq!['.', '.']),
{
    if c.unicode_len() == 2 && c.get_char(0) == '.' && c.get_char(1) == '.' {
        proof {
            assert(c@ =~= seq!['.', '.']);
        }
        true
    } else {
        proof {
            assert(c@ == seq!['.', '.'] ==> c@.len() == 2 && c@[0] == '.' && c@[1] == '.');
        }
        false
    }
}

/// Validates a raw stored entry name and, when it is accepted, returns the
/// resolved relative path as its components: the segments that remain after
/// `.` and `..` are resolved, confined below the destination root. Returns
/// `None` when the name is rejected.
pub fn resolve_entry_path(name: &str) -> (r: Option<Vec<String>>)
    ensures
        match r {
            Some(resolved) => resolve_path(name@) == Some(resolved.deep_view()),
            None => resolve_path(name@) is None,
        },
{
    if contains_nul(name) {
        return None;
    }
    if name.unicode_len() > 0 && name.get_char(0) == '/' {
        return None;
    }
    let comps = split_components(name);
    let ghost all = path_components(name@);
    let mut stack: Vec<String> = Vec::new();
    let mut k: usize = 0;
    proof {
        assert(stack.deep_view() =~= Seq::<Seq<char>>::empty());
        assert(all.skip(0) =~= all);
    }
    while k < comps.len()
        invariant
            k <= comps.len(),
            !name@.contains('\0'),
            !(name@.len() > 0 && name@[0] == '/'),
            all == path_components(name@),
            comps.deep_view() == all,
            resolve_onto(Seq::empty(), all) == resolve_onto(
                stack.deep_view(),
                all.skip(k as int),
            ),
        decreases comps.len() - k,
    {
        let ghost rest = all.skip(k as int);
        proof {
            assert(rest[0] == all[k as int]);
            assert(rest.drop_first() =~= all.skip(k as int + 1));
        }
        let c = &comps[k];
        let ghost prev_stack = stack.deep_view();
        if c.as_str().is_empty() || is_cur_dir(c.as_str()) {
            // a "current directory" component is a no-op
        } else if is_parent_dir(c.as_str()) {
            if stack.len() == 0 {
                proof {
                    assert(c@ == rest[0]);
                    assert(stack.deep_view().len() == 0);
                    assert(resolve_onto(stack.deep_view(), rest) is None);
                }
                return None;
            }
            stack.pop();
            proof {
                assert(stack.deep_view() =~= prev_stack.drop_last());
            }
        } else {
            stack.push(c.clone());
            proof {
                assert(stack.deep_view() =~= prev_stack.push(c@));
            }
        }
        k = k + 1;
    }
    proof {
        assert(all.skip(comps.len() as int) =~= Seq::<Seq<char>>::empty());
    }
    Some(stack)
}

/// Whether a raw stored entry name is safe to extract: it is accepted by
/// the validator, so its resolved path cannot escape the destination root.
pub fn is_safe_path(name: &str) -> (r: bool)
    ensures
        r == is_safe_name(name@),
{
    resolve_entry_path(name).is_some()
}

} // verus!
