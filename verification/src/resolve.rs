//! Version resolution: picking one version directory of a package from an
//! untrusted, partially-specified version string, by semantic-version order.

use vstd::prelude::*;
use crate::paths::lemma_split_at_first_sep;
use crate::paths::lemma_split_nonempty;
use crate::paths::split_sep;

verus! {

/// A non-empty run of ASCII digits.
pub open spec fn is_digits(s: Seq<char>) -> bool {
    s.len() > 0 && (forall|i: int|
        0 <= i < s.len() ==> '0' as u32 <= s[i] as u32 && s[i] as u32 <= '9' as u32)
}

/// The dot-separated parts of a version-spec string.
pub open spec fn spec_parts(vs: Seq<char>) -> Seq<Seq<char>> {
    split_sep(vs, '.')
}

/// A version spec is well-shaped when it has at most three parts, each a
/// run of digits: a major version, major and minor, or an exact triple.
pub open spec fn spec_well_shaped(vs: Seq<char>) -> bool {
    spec_parts(vs).len() <= 3 && (forall|k: int|
        0 <= k < spec_parts(vs).len() ==> is_digits(spec_parts(vs)[k]))
}

/// Whether `p` opens `s`.
pub open spec fn is_prefix(p: Seq<char>, s: Seq<char>) -> bool {
    p.len() <= s.len() && s.take(p.len() as int) == p
}

/// Whether a directory name is a candidate under a version spec. A one-
/// or two-part spec matches every name that extends it by a dot — string
/// prefix matching, so spec "2" also admits a name "2.x.y" for any x, y.
/// A three-part spec names one directory exactly. An ill-shaped spec
/// matches nothing.
pub open spec fn is_candidate(name: Seq<char>, vs: Seq<char>) -> bool {
    if !spec_well_shaped(vs) {
        false
    } else if spec_parts(vs).len() <= 2 {
        is_prefix(vs + seq!['.'], name)
    } else {
        name == vs
    }
}

/// With no version spec at all ("latest"), every directory is a candidate.
pub open spec fn matches_spec(name: Seq<char>, vspec: Option<Seq<char>>) -> bool {
    match vspec {
        Option::None => true,
        Option::Some(vs) => is_candidate(name, vs),
    }
}

/// The view of an optional string.
pub open spec fn opt_view(v: Option<&str>) -> Option<Seq<char>> {
    match v {
        Option::None => Option::None,
        Option::Some(s) => Option::Some(s@),
    }
}

/// The order resolution uses among version-directory names: whether the
/// semantic-version key of `a` is at or below the key of `b`. A name that
/// does not parse as a semantic version has the lowest key, version 0.0.0
/// — such a directory is still eligible, merely sorted lowest.
pub uninterp spec fn sem_key_le(a: Seq<char>, b: Seq<char>) -> bool;

/// Relies on semver::Version::parse, semver::Version::new and the Ord of
/// semver::Version: each name is parsed, a name that fails to parse stands
/// as version 0.0.0, and the keys are compared by the crate's version
/// order — major, minor and patch numerically, then pre-release and build
/// metadata by its identifier rules. Ord is a total order, so a negative
/// answer yields the reverse comparison and a positive one carries every
/// lower key across.
#[verifier::external_body]
fn key_le(a: &str, b: &str) -> (r: bool)
    ensures
        r == sem_key_le(a@, b@),
        !r ==> sem_key_le(b@, a@),
        r ==> (forall|c: Seq<char>| sem_key_le(c, a@) ==> sem_key_le(c, b@)),
{
    let ka = semver::Version::parse(a).unwrap_or(semver::Version::new(0, 0, 0));
    let kb = semver::Version::parse(b).unwrap_or(semver::Version::new(0, 0, 0));
    ka <= kb
}

/// Whether every character of `seg` is an ASCII digit and there is one.
fn part_is_digits(seg: &str) -> (r: bool)
    ensures
        r == is_digits(seg@),
{
    let n = seg.unicode_len();
    if n == 0 {
        return false;
    }
    let mut i: usize = 0;
    while i < n
        invariant
            n == seg@.len(),
            i <= n,
            forall|k: int|
                0 <= k < i ==> '0' as u32 <= seg@[k] as u32 && seg@[k] as u32 <= '9' as u32,
        decreases n - i,
    {
        let c = seg.get_char(i);
        if (c as u32) < ('0' as u32) || (c as u32) > ('9' as u32) {
            return false;
        }
        i += 1;
    }
    true
}

/// Classifies a version-spec string: the number of its dot-separated
/// parts when it is well-shaped, and nothing otherwise.
fn spec_shape(vs: &str) -> (r: Option<usize>)
    ensures
        r is Some <==> spec_well_shaped(vs@),
        r matches Some(np) ==> np == spec_parts(vs@).len(),
{
    let ghost s = vs@;
    let n = vs.unicode_len();
    let ghost mut done: Seq<Seq<char>> = Seq::empty();
    let mut nparts: usize = 0;
    let mut start: usize = 0;
    let mut i: usize = 0;
    proof {
        assert(s.skip(0) =~= s);
        assert(spec_parts(s) =~~= done + split_sep(s.skip(0), '.'));
    }
    while i < n
        invariant
            s == vs@,
            n == s.len(),
            start <= i <= n,
            nparts == done.len(),
            nparts <= 2,
            forall|k: int| start <= k < i ==> s[k] != '.',
            spec_parts(s) =~~= done + split_sep(s.skip(start as int), '.'),
            forall|k: int| 0 <= k < done.len() ==> is_digits(done[k]),
        decreases n - i,
    {
        let c = vs.get_char(i);
        if c == '.' {
            let seg = vs.substring_char(start, i);
            proof {
                assert(s.skip(start as int).take(i - start) =~= seg@);
                lemma_split_at_first_sep(s.skip(start as int), '.', i - start);
                assert(s.skip(start as int).skip(i - start + 1) =~= s.skip(i + 1));
                assert(spec_parts(s) =~~= done.push(seg@) + split_sep(s.skip(i + 1), '.'));
            }
            if !part_is_digits(seg) {
                proof {
                    lemma_split_nonempty(s.skip(i + 1), '.');
                    assert(spec_parts(s)[done.len() as int] == seg@);
                }
                return None;
            }
            if nparts == 2 {
                proof {
                    lemma_split_nonempty(s.skip(i + 1), '.');
                    assert(spec_parts(s).len() >= 4);
                }
                return None;
            }
            proof {
                done = done.push(seg@);
            }
            nparts = nparts + 1;
            start = i + 1;
        }
        i += 1;
    }
    let seg = vs.substring_char(start, n);
    proof {
        assert(s.skip(start as int) =~= seg@);
        lemma_split_at_first_sep(s.skip(start as int), '.', n - start);
        assert(spec_parts(s) =~~= done.push(seg@));
    }
    if !part_is_digits(seg) {
        proof {
            assert(spec_parts(s)[done.len() as int] == seg@);
        }
        return None;
    }
    proof {
        done = done.push(seg@);
        assert(forall|k: int| 0 <= k < spec_parts(s).len() ==> spec_parts(s)[k] == done[k]);
    }
    Some(nparts + 1)
}

/// Whether `name` begins with `vs` followed by a dot.
fn matches_prefix(name: &str, vs: &str) -> (r: bool)
    ensures
        r == is_prefix(vs@ + seq!['.'], name@),
{
    let ghost p = vs@ + seq!['.'];
    let vn = vs.unicode_len();
    let nn = name.unicode_len();
    if nn <= vn {
        return false;
    }
    let mut k: usize = 0;
    while k < vn
        invariant
            nn == name@.len(),
            vn == vs@.len(),
            nn > vn,
            k <= vn,
            p == vs@ + seq!['.'],
            forall|t: int| 0 <= t < k ==> name@[t] == p[t],
        decreases vn - k,
    {
        if name.get_char(k) != vs.get_char(k) {
            proof {
                assert(p[k as int] == vs@[k as int]);
                assert(!is_prefix(p, name@)) by {
                    if name@.take(p.len() as int) == p {
                        assert(name@.take(p.len() as int)[k as int] == name@[k as int]);
                    }
                }
            }
            return false;
        }
        k += 1;
    }
    if name.get_char(vn) != '.' {
        proof {
            assert(p[vn as int] == '.');
            assert(!is_prefix(p, name@)) by {
                if name@.take(p.len() as int) == p {
                    assert(name@.take(p.len() as int)[vn as int] == name@[vn as int]);
                }
            }
        }
        return false;
    }
    proof {
        assert(name@.take(p.len() as int) =~= p);
    }
    true
}

/// Whether two strings hold the same characters.
fn str_eq_chars(a: &str, b: &str) -> (r: bool)
    ensures
        r == (a@ == b@),
{
    let an = a.unicode_len();
    let bn = b.unicode_len();
    if an != bn {
        return false;
    }
    let mut k: usize = 0;
    while k < an
        invariant
            an == a@.len(),
            bn == b@.len(),
            an == bn,
            k <= an,
            forall|t: int| 0 <= t < k ==> a@[t] == b@[t],
        decreases an - k,
    {
        if a.get_char(k) != b.get_char(k) {
            return false;
        }
        k += 1;
    }
    proof {
        assert(a@ =~= b@);
    }
    true
}

/// Whether one directory name is a candidate under an already-classified
/// well-shaped spec of `np` parts.
fn name_matches(name: &str, vs: &str, np: usize) -> (r: bool)
    requires
        spec_well_shaped(vs@),
        np == spec_parts(vs@).len(),
    ensures
        r == is_candidate(name@, vs@),
{
    if np <= 2 {
        matches_prefix(name, vs)
    } else {
        str_eq_chars(name, vs)
    }
}

/// Resolves an optional version spec against the version-directory names
/// of one package: among the candidate names the one with the greatest
/// semantic-version key wins, and of equally-keyed candidates the one
/// enumerated last, exactly as a stable ascending sort read from its tail.
/// Nothing is returned exactly when no name is a candidate.
pub fn resolve(names: &Vec<String>, vspec: Option<&str>) -> (r: Option<usize>)
    ensures
        r matches Some(i) ==> {
            &&& i < names.len()
            &&& matches_spec(names@[i as int]@, opt_view(vspec))
            &&& forall|j: int|
                0 <= j < names.len() && j != i && matches_spec(names@[j]@, opt_view(vspec))
                    ==> sem_key_le(names@[j]@, names@[i as int]@)
            &&& forall|j: int|
                i < j < names.len() && matches_spec(names@[j]@, opt_view(vspec))
                    ==> !sem_key_le(names@[i as int]@, names@[j]@)
        },
        r is None <==> (forall|j: int|
            0 <= j < names.len() ==> !matches_spec(names@[j]@, opt_view(vspec))),
{
    let shape: Option<usize> = match vspec {
        None => None,
        Some(vs) => {
            let sh = spec_shape(vs);
            if sh.is_none() {
                return None;
            }
            sh
        },
    };
    let mut best: Option<usize> = None;
    let mut i: usize = 0;
    while i < names.len()
        invariant
            i <= names.len(),
            vspec is Some ==> (shape matches Some(np) && spec_well_shaped(vspec->0@) && np
                == spec_parts(vspec->0@).len()),
            best matches Some(b) ==> {
                &&& b < i
                &&& matches_spec(names@[b as int]@, opt_view(vspec))
                &&& forall|j: int|
                    0 <= j < i && j != b && matches_spec(names@[j]@, opt_view(vspec))
                        ==> sem_key_le(names@[j]@, names@[b as int]@)
                &&& forall|j: int|
                    b < j < i && matches_spec(names@[j]@, opt_view(vspec)) ==> !sem_key_le(
                        names@[b as int]@,
                        names@[j]@,
                    )
            },
            best is None ==> (forall|j: int|
                0 <= j < i ==> !matches_spec(names@[j]@, opt_view(vspec))),
        decreases names.len() - i,
    {
        let cand = match vspec {
            None => true,
            Some(vs) => name_matches(names[i].as_str(), vs, shape.unwrap()),
        };
        if cand {
            match best {
                None => {
                    best = Some(i);
                },
                Some(b) => {
                    if key_le(names[b].as_str(), names[i].as_str()) {
                        best = Some(i);
                    }
                },
            }
        }
        i += 1;
    }
    best
}

/// Law: a version spec that is not one, two or three runs of digits
/// matches no directory name at all.
pub proof fn lemma_ill_shaped_spec_matches_nothing(name: Seq<char>, vs: Seq<char>)
    requires
        !spec_well_shaped(vs),
    ensures
        !matches_spec(name, Some(vs)),
{
}

/// Law: an empty package directory offers no candidate, whatever the
/// spec — absent, partial, exact, or ill-shaped alike.
pub proof fn lemma_empty_dir_no_candidate(names: Seq<Seq<char>>, vspec: Option<Seq<char>>)
    requires
        names.len() == 0,
    ensures
        !(exists|j: int| 0 <= j < names.len() && matches_spec(names[j], vspec)),
{
}

/// Picks the version directory that an absent spec resolves to: the
/// highest semantic-version key among all names.
pub fn get_latest(names: &Vec<String>) -> (r: Option<usize>)
    ensures
        r matches Some(i) ==> {
            &&& i < names.len()
            &&& forall|j: int|
                0 <= j < names.len() && j != i ==> sem_key_le(names@[j]@, names@[i as int]@)
            &&& forall|j: int| i < j < names.len() ==> !sem_key_le(names@[i as int]@, names@[j]@)
        },
        r is None <==> names.len() == 0,
{
    let r = resolve(names, None);
    proof {
        if names.len() > 0 {
            assert(matches_spec(names@[0]@, opt_view(None)));
        }
    }
    r
}

/// Picks the version directory that an explicit spec resolves to: the
/// highest semantic-version key among the names the spec admits.
pub fn get_version(names: &Vec<String>, ver: &str) -> (r: Option<usize>)
    ensures
        r matches Some(i) ==> {
            &&& i < names.len()
            &&& is_candidate(names@[i as int]@, ver@)
            &&& forall|j: int|
                0 <= j < names.len() && j != i && is_candidate(names@[j]@, ver@) ==> sem_key_le(
                    names@[j]@,
                    names@[i as int]@,
                )
            &&& forall|j: int|
                i < j < names.len() && is_candidate(names@[j]@, ver@) ==> !sem_key_le(
                    names@[i as int]@,
                    names@[j]@,
                )
        },
        r is None <==> (forall|j: int| 0 <= j < names.len() ==> !is_candidate(names@[j]@, ver@)),
{
    resolve(names, Some(ver))
}

} // verus!
