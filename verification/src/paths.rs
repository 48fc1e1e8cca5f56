//! Path-safety validation: splitting an untrusted string into components
//! and accepting it only when no component could escape the base directory.

use vstd::prelude::*;

verus! {

/// The components of `s`, split at every occurrence of `sep`.
/// Splitting the empty string gives one empty component, and a separator
/// always divides two components, so the result is never empty.
pub open spec fn split_sep(s: Seq<char>, sep: char) -> Seq<Seq<char>>
    decreases s.len(),
{
    if s.len() == 0 {
        seq![Seq::<char>::empty()]
    } else if s[0] == sep {
        seq![Seq::<char>::empty()] + split_sep(s.skip(1), sep)
    } else {
        let rest = split_sep(s.skip(1), sep);
        seq![seq![s[0]] + rest[0]] + rest.skip(1)
    }
}

pub proof fn lemma_split_nonempty(s: Seq<char>, sep: char)
    ensures
        split_sep(s, sep).len() >= 1,
    decreases s.len(),
{
    if s.len() != 0 && s[0] != sep {
        lemma_split_nonempty(s.skip(1), sep);
    }
}

/// Every component of a split is free of the separator.
pub proof fn lemma_split_sep_free(s: Seq<char>, sep: char)
    ensures
        forall|k: int, j: int|
            0 <= k < split_sep(s, sep).len() && 0 <= j < split_sep(s, sep)[k].len()
                ==> split_sep(s, sep)[k][j] != sep,
    decreases s.len(),
{
    if s.len() == 0 {
    } else if s[0] == sep {
        lemma_split_sep_free(s.skip(1), sep);
        assert forall|k: int, j: int|
            0 <= k < split_sep(s, sep).len() && 0 <= j < split_sep(s, sep)[k].len()
                implies split_sep(s, sep)[k][j] != sep by {
            if k >= 1 {
                assert(split_sep(s, sep)[k] == split_sep(s.skip(1), sep)[k - 1]);
            }
        }
    } else {
        lemma_split_sep_free(s.skip(1), sep);
        lemma_split_nonempty(s.skip(1), sep);
        let rest = split_sep(s.skip(1), sep);
        assert forall|k: int, j: int|
            0 <= k < split_sep(s, sep).len() && 0 <= j < split_sep(s, sep)[k].len()
                implies split_sep(s, sep)[k][j] != sep by {
            if k == 0 {
                if j == 0 {
                } else {
                    assert(split_sep(s, sep)[0][j] == rest[0][j - 1]);
                }
            } else {
                assert(split_sep(s, sep)[k] == rest[k]);
            }
        }
    }
}

/// Where the first separator stands at position `f` (or `f` is the length,
/// when there is none), the split divides as: the prefix before `f` is the
/// first component, and the rest of `s` after `f` splits into the rest.
pub proof fn lemma_split_at_first_sep(s: Seq<char>, sep: char, f: int)
    requires
        0 <= f <= s.len(),
        forall|k: int| 0 <= k < f ==> s[k] != sep,
        f < s.len() ==> s[f] == sep,
    ensures
        f == s.len() ==> split_sep(s, sep) =~~= seq![s],
        f < s.len() ==> split_sep(s, sep) =~~= seq![s.take(f)] + split_sep(s.skip(f + 1), sep),
    decreases f,
{
    if f == 0 {
        if s.len() == 0 {
            assert(split_sep(s, sep) =~~= seq![s]);
        } else {
            assert(s.take(0) =~= Seq::<char>::empty());
            assert(split_sep(s, sep) =~~= seq![s.take(0)] + split_sep(s.skip(1), sep));
        }
    } else {
        lemma_split_at_first_sep(s.skip(1), sep, f - 1);
        lemma_split_nonempty(s.skip(1), sep);
        let rest = split_sep(s.skip(1), sep);
        if f == s.len() {
            assert(rest =~~= seq![s.skip(1)]);
            assert(seq![s[0]] + s.skip(1) =~= s);
            assert(split_sep(s, sep) =~~= seq![s]);
        } else {
            assert(rest =~~= seq![s.skip(1).take(f - 1)] + split_sep(s.skip(1).skip(f), sep));
            assert(seq![s[0]] + s.skip(1).take(f - 1) =~= s.take(f));
            assert(s.skip(1).skip(f) =~= s.skip(f + 1));
            assert(rest.skip(1) =~~= split_sep(s.skip(f + 1), sep));
            assert(split_sep(s, sep) =~~= seq![s.take(f)] + split_sep(s.skip(f + 1), sep));
        }
    }
}

/// The parent-directory marker, the one component that escapes upward.
pub open spec fn seg_parent() -> Seq<char> {
    seq!['.', '.']
}

/// The current-directory marker, a component that contributes nothing.
pub open spec fn seg_current() -> Seq<char> {
    seq!['.']
}

/// A component that the validator appends to the base: non-empty and
/// neither directory marker.
pub open spec fn seg_kept(seg: Seq<char>) -> bool {
    seg.len() > 0 && seg != seg_current() && seg != seg_parent()
}

/// What one component contributes to the validated path.
pub open spec fn seg_out(seg: Seq<char>) -> Seq<char> {
    if seg_kept(seg) {
        seq!['/'] + seg
    } else {
        Seq::<char>::empty()
    }
}

/// What a sequence of components contributes, in order.
pub open spec fn joined(segs: Seq<Seq<char>>) -> Seq<char>
    decreases segs.len(),
{
    if segs.len() == 0 {
        Seq::<char>::empty()
    } else {
        seg_out(segs[0]) + joined(segs.skip(1))
    }
}

proof fn lemma_joined_push(segs: Seq<Seq<char>>, seg: Seq<char>)
    ensures
        joined(segs.push(seg)) =~= joined(segs) + seg_out(seg),
    decreases segs.len(),
{
    if segs.len() == 0 {
        assert(segs.push(seg).skip(1) =~~= Seq::<Seq<char>>::empty());
        assert(segs.push(seg)[0] == seg);
        assert(joined(segs.push(seg)) == seg_out(seg) + joined(Seq::<Seq<char>>::empty()));
    } else {
        lemma_joined_push(segs.skip(1), seg);
        assert(segs.push(seg).skip(1) =~~= segs.skip(1).push(seg));
        assert(segs.push(seg)[0] == segs[0]);
        assert(joined(segs.push(seg)) == seg_out(segs[0]) + joined(segs.skip(1).push(seg)));
    }
}

/// An untrusted path is safe exactly when none of its slash-separated
/// components is the parent-directory marker.
pub open spec fn path_ok(s: Seq<char>) -> bool {
    forall|k: int| 0 <= k < split_sep(s, '/').len() ==> split_sep(s, '/')[k] != seg_parent()
}

/// The validated path: the base, extended in order by every plain
/// component of the untrusted input.
pub open spec fn checked_path(base: Seq<char>, s: Seq<char>) -> Seq<char> {
    base + joined(split_sep(s, '/'))
}

/// Appends one already-isolated component to the path being built.
/// Returns false exactly on the parent-directory marker; an empty
/// component or the current-directory marker is skipped.
fn classify_push(out: &mut String, seg: &str) -> (ok: bool)
    ensures
        ok == (seg@ != seg_parent()),
        ok ==> final(out)@ == old(out)@ + seg_out(seg@),
{
    let n = seg.unicode_len();
    if n == 0 {
        proof {
            assert(old(out)@ + seg_out(seg@) =~= out@);
        }
        return true;
    }
    if n == 1 && seg.get_char(0) == '.' {
        proof {
            assert(seg@ =~= seg_current());
            assert(old(out)@ + seg_out(seg@) =~= out@);
        }
        return true;
    }
    if n == 2 && seg.get_char(0) == '.' && seg.get_char(1) == '.' {
        proof {
            assert(seg@ =~= seg_parent());
        }
        return false;
    }
    proof {
        assert(seg@ != seg_parent());
        assert(seg@ != seg_current());
        reveal_strlit("/");
    }
    out.append("/");
    out.append(seg);
    proof {
        assert(out@ =~= old(out)@ + seg_out(seg@));
    }
    true
}

/// Validates an untrusted path fragment against a trusted base directory.
///
/// The fragment is split at every slash; an empty component or a lone dot
/// is skipped, a parent-directory marker rejects the whole input, and any
/// other component is appended to the base. The result is the extended
/// path when every component was acceptable, and nothing otherwise — the
/// caller maps the two outcomes to distinct responses.
pub fn path_check(subpath: &str, base: &str) -> (r: Option<String>)
    ensures
        r is Some <==> path_ok(subpath@),
        r matches Some(p) ==> p@ == checked_path(base@, subpath@),
{
    let ghost s = subpath@;
    let n = subpath.unicode_len();
    let mut out = base.to_owned();
    let ghost mut done: Seq<Seq<char>> = Seq::empty();
    let mut start: usize = 0;
    let mut i: usize = 0;
    proof {
        assert(s.skip(0) =~= s);
        assert(split_sep(s, '/') =~~= done + split_sep(s.skip(0), '/'));
        assert(out@ =~= base@ + joined(done));
    }
    while i < n
        invariant
            s == subpath@,
            n == s.len(),
            start <= i <= n,
            forall|k: int| start <= k < i ==> s[k] != '/',
            split_sep(s, '/') =~~= done + split_sep(s.skip(start as int), '/'),
            forall|k: int| 0 <= k < done.len() ==> done[k] != seg_parent(),
            out@ == base@ + joined(done),
        decreases n - i,
    {
        let c = subpath.get_char(i);
        if c == '/' {
            let seg = subpath.substring_char(start, i);
            proof {
                assert(s.skip(start as int).take(i - start) =~= seg@);
                lemma_split_at_first_sep(s.skip(start as int), '/', i - start);
                assert(s.skip(start as int).skip(i - start + 1) =~= s.skip(i + 1));
                assert(split_sep(s, '/') =~~= done.push(seg@) + split_sep(
                    s.skip(i + 1),
                    '/',
                ));
            }
            if !classify_push(&mut out, seg) {
                proof {
                    lemma_split_nonempty(s.skip(i + 1), '/');
                    assert(split_sep(s, '/')[done.len() as int] == seg_parent());
                }
                return None;
            }
            proof {
                lemma_joined_push(done, seg@);
                done = done.push(seg@);
            }
            start = i + 1;
        }
        i += 1;
    }
    let seg = subpath.substring_char(start, n);
    proof {
        assert(s.skip(start as int) =~= seg@);
        lemma_split_at_first_sep(s.skip(start as int), '/', n - start);
        assert(split_sep(s, '/') =~~= done.push(seg@));
    }
    if !classify_push(&mut out, seg) {
        proof {
            assert(split_sep(s, '/')[done.len() as int] == seg_parent());
        }
        return None;
    }
    proof {
        lemma_joined_push(done, seg@);
        done = done.push(seg@);
        assert(forall|k: int| 0 <= k < split_sep(s, '/').len() ==> split_sep(s, '/')[k] == done[k]);
        assert(out@ =~= checked_path(base@, s));
    }
    Some(out)
}

/// A plain name: non-empty, slash-free, and neither directory marker.
pub open spec fn seg_plain(seg: Seq<char>) -> bool {
    seg.len() > 0 && seg != seg_current() && seg != seg_parent() && (forall|j: int|
        0 <= j < seg.len() ==> seg[j] != '/')
}

/// Law: an input with a parent-directory component anywhere is never
/// accepted, whatever stands around that component.
pub proof fn lemma_traversal_rejected(s: Seq<char>, k: int)
    requires
        0 <= k < split_sep(s, '/').len(),
        split_sep(s, '/')[k] == seg_parent(),
    ensures
        !path_ok(s),
{
}

/// Law: an accepted input stays within the base directory. The validated
/// path begins with the base itself, and every component the validator
/// kept — the only material appended after it — is a plain name.
pub proof fn lemma_accepted_path_stays_within_base(base: Seq<char>, s: Seq<char>)
    requires
        path_ok(s),
    ensures
        checked_path(base, s).len() >= base.len(),
        checked_path(base, s).take(base.len() as int) == base,
        forall|k: int|
            0 <= k < split_sep(s, '/').len() && seg_kept(split_sep(s, '/')[k]) ==> seg_plain(
                split_sep(s, '/')[k],
            ),
{
    assert(checked_path(base, s).take(base.len() as int) =~= base);
    lemma_split_sep_free(s, '/');
}

} // verus!
