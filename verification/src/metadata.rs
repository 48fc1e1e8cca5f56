//! The package descriptor: the fixed metadata schema stored with every
//! version of a package, and its encoding into the JSON wire form.

use vstd::prelude::*;

verus! {

/// The fixed descriptor schema: every field is a string or a list of
/// strings, and the wire form carries them all, field for field.
#[derive(Debug)]
pub struct PackageMetadata {
    pub name: String,
    pub description: String,
    pub version: String,
    pub origin: String,
    pub build_dependencies: Vec<String>,
    pub runtime_dependencies: Vec<String>,
    pub build: String,
    pub install: String,
    pub uninstall: String,
    pub purge: String,
    pub hash: String,
}

/// The hexadecimal digit for one value below sixteen, lower case.
pub open spec fn hex_digit(n: u32) -> char {
    if n == 0 {
        '0'
    } else if n == 1 {
        '1'
    } else if n == 2 {
        '2'
    } else if n == 3 {
        '3'
    } else if n == 4 {
        '4'
    } else if n == 5 {
        '5'
    } else if n == 6 {
        '6'
    } else if n == 7 {
        '7'
    } else if n == 8 {
        '8'
    } else if n == 9 {
        '9'
    } else if n == 10 {
        'a'
    } else if n == 11 {
        'b'
    } else if n == 12 {
        'c'
    } else if n == 13 {
        'd'
    } else if n == 14 {
        'e'
    } else {
        'f'
    }
}

/// The JSON escape of one character: quote and backslash escaped, the
/// named control characters short-escaped, every other control character
/// written as a four-digit unicode escape, all else carried through.
pub open spec fn esc_char(c: char) -> Seq<char> {
    if c == '"' {
        seq!['\\', '"']
    } else if c == '\\' {
        seq!['\\', '\\']
    } else if c == '\u{8}' {
        seq!['\\', 'b']
    } else if c == '\u{9}' {
        seq!['\\', 't']
    } else if c == '\u{A}' {
        seq!['\\', 'n']
    } else if c == '\u{C}' {
        seq!['\\', 'f']
    } else if c == '\u{D}' {
        seq!['\\', 'r']
    } else if (c as u32) < 32 {
        seq!['\\', 'u', '0', '0', hex_digit((c as u32) / 16), hex_digit((c as u32) % 16)]
    } else {
        seq![c]
    }
}

/// The escaped body of a JSON string.
pub open spec fn esc(s: Seq<char>) -> Seq<char>
    decreases s.len(),
{
    if s.len() == 0 {
        Seq::<char>::empty()
    } else {
        esc_char(s[0]) + esc(s.skip(1))
    }
}

/// A JSON string: the escaped body between quotes.
pub open spec fn json_str(s: Seq<char>) -> Seq<char> {
    seq!['"'] + esc(s) + seq!['"']
}

/// The comma-separated items of a JSON array of strings.
pub open spec fn json_items(v: Seq<Seq<char>>) -> Seq<char>
    decreases v.len(),
{
    if v.len() == 0 {
        Seq::<char>::empty()
    } else if v.len() == 1 {
        json_str(v[0])
    } else {
        json_str(v[0]) + seq![','] + json_items(v.skip(1))
    }
}

/// A JSON array of strings.
pub open spec fn json_str_list(v: Seq<Seq<char>>) -> Seq<char> {
    seq!['['] + json_items(v) + seq![']']
}

/// The views of a sequence of strings.
pub open spec fn views_of(v: Seq<String>) -> Seq<Seq<char>> {
    Seq::new(v.len(), |i: int| v[i]@)
}

/// The wire form from the description field on.
pub open spec fn json_from_description(m: PackageMetadata) -> Seq<char> {
    ",\"description\":"@ + (json_str(m.description@) + json_from_version(m))
}

/// The wire form from the version field on.
pub open spec fn json_from_version(m: PackageMetadata) -> Seq<char> {
    ",\"version\":"@ + (json_str(m.version@) + json_from_origin(m))
}

/// The wire form from the origin field on.
pub open spec fn json_from_origin(m: PackageMetadata) -> Seq<char> {
    ",\"origin\":"@ + (json_str(m.origin@) + json_from_build_deps(m))
}

/// The wire form from the build-dependency list on.
pub open spec fn json_from_build_deps(m: PackageMetadata) -> Seq<char> {
    ",\"build_dependencies\":"@ + (json_str_list(views_of(m.build_dependencies@))
        + json_from_runtime_deps(m))
}

/// The wire form from the runtime-dependency list on.
pub open spec fn json_from_runtime_deps(m: PackageMetadata) -> Seq<char> {
    ",\"runtime_dependencies\":"@ + (json_str_list(views_of(m.runtime_dependencies@))
        + json_from_build(m))
}

/// The wire form from the build script field on.
pub open spec fn json_from_build(m: PackageMetadata) -> Seq<char> {
    ",\"build\":"@ + (json_str(m.build@) + json_from_install(m))
}

/// The wire form from the install script field on.
pub open spec fn json_from_install(m: PackageMetadata) -> Seq<char> {
    ",\"install\":"@ + (json_str(m.install@) + json_from_uninstall(m))
}

/// The wire form from the uninstall script field on.
pub open spec fn json_from_uninstall(m: PackageMetadata) -> Seq<char> {
    ",\"uninstall\":"@ + (json_str(m.uninstall@) + json_from_purge(m))
}

/// The wire form from the purge script field on.
pub open spec fn json_from_purge(m: PackageMetadata) -> Seq<char> {
    ",\"purge\":"@ + (json_str(m.purge@) + json_from_hash(m))
}

/// The wire form from the hash field to the closing brace.
pub open spec fn json_from_hash(m: PackageMetadata) -> Seq<char> {
    ",\"hash\":"@ + (json_str(m.hash@) + "}"@)
}

/// The JSON wire form of a descriptor: one object, the fixed fields in
/// their fixed order, each a JSON string or an array of JSON strings.
pub open spec fn json_of(m: PackageMetadata) -> Seq<char> {
    "{\"name\":"@ + (json_str(m.name@) + json_from_description(m))
}

proof fn lemma_esc_snoc(s: Seq<char>, c: char)
    ensures
        esc(s.push(c)) =~= esc(s) + esc_char(c),
    decreases s.len(),
{
    if s.len() == 0 {
        assert(s.push(c).skip(1) =~= Seq::<char>::empty());
        assert(esc(s.push(c)) == esc_char(c) + esc(Seq::<char>::empty()));
    } else {
        lemma_esc_snoc(s.skip(1), c);
        assert(s.push(c).skip(1) =~= s.skip(1).push(c));
        assert(esc(s.push(c)) == esc_char(s[0]) + esc(s.skip(1).push(c)));
    }
}

proof fn lemma_items_snoc(v: Seq<Seq<char>>, x: Seq<char>)
    ensures
        v.len() == 0 ==> json_items(v.push(x)) =~= json_str(x),
        v.len() >= 1 ==> json_items(v.push(x)) =~= json_items(v) + seq![','] + json_str(x),
    decreases v.len(),
{
    if v.len() == 0 {
    } else if v.len() == 1 {
        assert(v.push(x).skip(1) =~~= seq![x]);
        assert(json_items(v.push(x)) == json_str(v[0]) + seq![','] + json_items(seq![x]));
    } else {
        lemma_items_snoc(v.skip(1), x);
        assert(v.push(x).skip(1) =~~= v.skip(1).push(x));
        assert(json_items(v.push(x)) == json_str(v[0]) + seq![','] + json_items(v.skip(1).push(x)));
    }
}

proof fn lemma_hex_digit_injective(n1: u32, n2: u32)
    requires
        n1 < 16,
        n2 < 16,
        hex_digit(n1) == hex_digit(n2),
    ensures
        n1 == n2,
{
}

/// The escapes of two characters never run together ambiguously: whatever
/// follows each, equal concatenations force equal characters and tails.
proof fn lemma_esc_char_code(c1: char, c2: char, t1: Seq<char>, t2: Seq<char>)
    requires
        esc_char(c1) + t1 == esc_char(c2) + t2,
    ensures
        c1 == c2,
        t1 == t2,
{
    let e1 = esc_char(c1);
    let e2 = esc_char(c2);
    let w = e1 + t1;
    assert(w == e2 + t2);
    assert(w[0] == e1[0] && w[0] == e2[0]);
    if e1.len() >= 2 && e2.len() >= 2 {
        assert(w[1] == e1[1] && w[1] == e2[1]);
    }
    if e1.len() == 6 && e2.len() == 6 {
        assert(w[4] == e1[4] && w[4] == e2[4]);
        assert(w[5] == e1[5] && w[5] == e2[5]);
        lemma_hex_digit_injective((c1 as u32) / 16, (c2 as u32) / 16);
        lemma_hex_digit_injective((c1 as u32) % 16, (c2 as u32) % 16);
        assert(c1 as u32 == c2 as u32);
    }
    assert(c1 == c2);
    assert(t1 =~= w.skip(e1.len() as int));
    assert(t2 =~= w.skip(e2.len() as int));
}

/// Escaping loses nothing: equal escaped bodies come from equal strings.
proof fn lemma_esc_injective(s1: Seq<char>, s2: Seq<char>)
    requires
        esc(s1) == esc(s2),
    ensures
        s1 == s2,
    decreases s1.len(),
{
    if s1.len() == 0 && s2.len() == 0 {
        assert(s1 =~= s2);
    } else if s1.len() == 0 {
        assert(esc(s2).len() >= esc_char(s2[0]).len());
        assert(false);
    } else if s2.len() == 0 {
        assert(esc(s1).len() >= esc_char(s1[0]).len());
        assert(false);
    } else {
        lemma_esc_char_code(s1[0], s2[0], esc(s1.skip(1)), esc(s2.skip(1)));
        lemma_esc_injective(s1.skip(1), s2.skip(1));
        assert(s1.len() == s2.len());
        assert forall|i: int| 0 <= i < s1.len() implies s1[i] == s2[i] by {
            if i > 0 {
                assert(s1[i] == s1.skip(1)[i - 1]);
                assert(s2[i] == s2.skip(1)[i - 1]);
            }
        }
        assert(s1 =~= s2);
    }
}

/// Law: a JSON-encoded string determines the string it encodes — the
/// quoting and escaping of the wire form lose nothing and collide never.
pub proof fn lemma_json_str_injective(s1: Seq<char>, s2: Seq<char>)
    requires
        json_str(s1) == json_str(s2),
    ensures
        s1 == s2,
{
    let j1 = json_str(s1);
    let j2 = json_str(s2);
    assert(esc(s1) =~= j1.subrange(1, j1.len() - 1));
    assert(esc(s2) =~= j2.subrange(1, j2.len() - 1));
    lemma_esc_injective(s1, s2);
}

proof fn lemma_regroup(g: Seq<char>, lit: Seq<char>, val: Seq<char>, tail: Seq<char>)
    ensures
        ((g + lit) + val) + tail == g + (lit + (val + tail)),
{
    assert(((g + lit) + val) + tail =~= g + (lit + (val + tail)));
}

proof fn lemma_cancel_prefix(a: Seq<char>, x: Seq<char>, y: Seq<char>)
    requires
        a + x == a + y,
    ensures
        x == y,
{
    assert(x =~= (a + x).skip(a.len() as int));
    assert(y =~= (a + y).skip(a.len() as int));
}

/// An escaped body closed by a quote is self-delimiting: no escape opens
/// with a bare quote, so equal streams force equal bodies and tails.
proof fn lemma_esc_quote_code(s1: Seq<char>, r1: Seq<char>, s2: Seq<char>, r2: Seq<char>)
    requires
        esc(s1) + seq!['"'] + r1 == esc(s2) + seq!['"'] + r2,
    ensures
        s1 == s2,
        r1 == r2,
    decreases s1.len(),
{
    let w = esc(s1) + seq!['"'] + r1;
    if s1.len() == 0 && s2.len() == 0 {
        assert(r1 =~= w.skip(1));
        assert(r2 =~= w.skip(1));
        assert(s1 =~= s2);
    } else if s1.len() == 0 {
        assert(w[0] == '"');
        assert(w[0] == esc_char(s2[0])[0]);
        assert(esc_char(s2[0])[0] != '"');
        assert(false);
    } else if s2.len() == 0 {
        assert(w[0] == '"');
        assert(w[0] == esc_char(s1[0])[0]);
        assert(esc_char(s1[0])[0] != '"');
        assert(false);
    } else {
        assert(esc_char(s1[0]) + (esc(s1.skip(1)) + seq!['"'] + r1) =~= w);
        assert(esc_char(s2[0]) + (esc(s2.skip(1)) + seq!['"'] + r2) =~= w);
        lemma_esc_char_code(
            s1[0],
            s2[0],
            esc(s1.skip(1)) + seq!['"'] + r1,
            esc(s2.skip(1)) + seq!['"'] + r2,
        );
        lemma_esc_quote_code(s1.skip(1), r1, s2.skip(1), r2);
        assert(s1.len() == s2.len());
        assert forall|i: int| 0 <= i < s1.len() implies s1[i] == s2[i] by {
            if i > 0 {
                assert(s1[i] == s1.skip(1)[i - 1]);
                assert(s2[i] == s2.skip(1)[i - 1]);
            }
        }
        assert(s1 =~= s2);
    }
}

/// A JSON string is self-delimiting: whatever follows each, equal streams
/// force equal strings and equal tails.
proof fn lemma_json_str_code(s1: Seq<char>, t1: Seq<char>, s2: Seq<char>, t2: Seq<char>)
    requires
        json_str(s1) + t1 == json_str(s2) + t2,
    ensures
        s1 == s2,
        t1 == t2,
{
    assert(esc(s1) + seq!['"'] + t1 =~= (json_str(s1) + t1).skip(1));
    assert(esc(s2) + seq!['"'] + t2 =~= (json_str(s2) + t2).skip(1));
    lemma_esc_quote_code(s1, t1, s2, t2);
}

/// The items of a JSON string array, closed by the bracket, are
/// self-delimiting in the same way.
proof fn lemma_items_code(v1: Seq<Seq<char>>, t1: Seq<char>, v2: Seq<Seq<char>>, t2: Seq<char>)
    requires
        json_items(v1) + seq![']'] + t1 == json_items(v2) + seq![']'] + t2,
    ensures
        v1 == v2,
        t1 == t2,
    decreases v1.len(),
{
    let w = json_items(v1) + seq![']'] + t1;
    if v1.len() == 0 && v2.len() == 0 {
        assert(t1 =~= w.skip(1));
        assert(t2 =~= w.skip(1));
        assert(v1 =~~= v2);
    } else if v1.len() == 0 {
        assert(w[0] == ']');
        assert(w[0] == json_str(v2[0])[0]);
        assert(false);
    } else if v2.len() == 0 {
        assert(w[0] == ']');
        assert(w[0] == json_str(v1[0])[0]);
        assert(false);
    } else {
        let r1 = if v1.len() == 1 {
            seq![']'] + t1
        } else {
            seq![','] + json_items(v1.skip(1)) + seq![']'] + t1
        };
        let r2 = if v2.len() == 1 {
            seq![']'] + t2
        } else {
            seq![','] + json_items(v2.skip(1)) + seq![']'] + t2
        };
        assert(json_str(v1[0]) + r1 =~= w);
        assert(json_str(v2[0]) + r2 =~= w);
        lemma_json_str_code(v1[0], r1, v2[0], r2);
        if v1.len() == 1 && v2.len() == 1 {
            assert(t1 =~= r1.skip(1));
            assert(t2 =~= r2.skip(1));
            assert(v1 =~~= v2);
        } else if v1.len() == 1 {
            assert(r1[0] == ']' && r2[0] == ',');
            assert(false);
        } else if v2.len() == 1 {
            assert(r1[0] == ',' && r2[0] == ']');
            assert(false);
        } else {
            assert(json_items(v1.skip(1)) + seq![']'] + t1 =~= r1.skip(1));
            assert(json_items(v2.skip(1)) + seq![']'] + t2 =~= r2.skip(1));
            lemma_items_code(v1.skip(1), t1, v2.skip(1), t2);
            assert(v1.len() == v2.len());
            assert forall|i: int| 0 <= i < v1.len() implies v1[i] == v2[i] by {
                if i > 0 {
                    assert(v1[i] == v1.skip(1)[i - 1]);
                    assert(v2[i] == v2.skip(1)[i - 1]);
                }
            }
            assert(v1 =~~= v2);
        }
    }
}

/// A JSON string array is self-delimiting.
proof fn lemma_json_list_code(v1: Seq<Seq<char>>, t1: Seq<char>, v2: Seq<Seq<char>>, t2: Seq<char>)
    requires
        json_str_list(v1) + t1 == json_str_list(v2) + t2,
    ensures
        v1 == v2,
        t1 == t2,
{
    assert(json_items(v1) + seq![']'] + t1 =~= (json_str_list(v1) + t1).skip(1));
    assert(json_items(v2) + seq![']'] + t2 =~= (json_str_list(v2) + t2).skip(1));
    lemma_items_code(v1, t1, v2, t2);
}

/// Law: the wire form determines the descriptor. Two descriptors with the
/// same JSON encoding agree on every field — the transcoding loses and
/// renames nothing.
pub proof fn lemma_json_of_injective(m1: PackageMetadata, m2: PackageMetadata)
    requires
        json_of(m1) == json_of(m2),
    ensures
        m1.name@ == m2.name@,
        m1.description@ == m2.description@,
        m1.version@ == m2.version@,
        m1.origin@ == m2.origin@,
        views_of(m1.build_dependencies@) == views_of(m2.build_dependencies@),
        views_of(m1.runtime_dependencies@) == views_of(m2.runtime_dependencies@),
        m1.build@ == m2.build@,
        m1.install@ == m2.install@,
        m1.uninstall@ == m2.uninstall@,
        m1.purge@ == m2.purge@,
        m1.hash@ == m2.hash@,
{
    lemma_cancel_prefix(
        "{\"name\":"@,
        json_str(m1.name@) + json_from_description(m1),
        json_str(m2.name@) + json_from_description(m2),
    );
    lemma_json_str_code(m1.name@, json_from_description(m1), m2.name@, json_from_description(m2));
    lemma_cancel_prefix(
        ",\"description\":"@,
        json_str(m1.description@) + json_from_version(m1),
        json_str(m2.description@) + json_from_version(m2),
    );
    lemma_json_str_code(
        m1.description@,
        json_from_version(m1),
        m2.description@,
        json_from_version(m2),
    );
    lemma_cancel_prefix(
        ",\"version\":"@,
        json_str(m1.version@) + json_from_origin(m1),
        json_str(m2.version@) + json_from_origin(m2),
    );
    lemma_json_str_code(m1.version@, json_from_origin(m1), m2.version@, json_from_origin(m2));
    lemma_cancel_prefix(
        ",\"origin\":"@,
        json_str(m1.origin@) + json_from_build_deps(m1),
        json_str(m2.origin@) + json_from_build_deps(m2),
    );
    lemma_json_str_code(m1.origin@, json_from_build_deps(m1), m2.origin@, json_from_build_deps(m2));
    lemma_cancel_prefix(
        ",\"build_dependencies\":"@,
        json_str_list(views_of(m1.build_dependencies@)) + json_from_runtime_deps(m1),
        json_str_list(views_of(m2.build_dependencies@)) + json_from_runtime_deps(m2),
    );
    lemma_json_list_code(
        views_of(m1.build_dependencies@),
        json_from_runtime_deps(m1),
        views_of(m2.build_dependencies@),
        json_from_runtime_deps(m2),
    );
    lemma_cancel_prefix(
        ",\"runtime_dependencies\":"@,
        json_str_list(views_of(m1.runtime_dependencies@)) + json_from_build(m1),
        json_str_list(views_of(m2.runtime_dependencies@)) + json_from_build(m2),
    );
    lemma_json_list_code(
        views_of(m1.runtime_dependencies@),
        json_from_build(m1),
        views_of(m2.runtime_dependencies@),
        json_from_build(m2),
    );
    lemma_cancel_prefix(
        ",\"build\":"@,
        json_str(m1.build@) + json_from_install(m1),
        json_str(m2.build@) + json_from_install(m2),
    );
    lemma_json_str_code(m1.build@, json_from_install(m1), m2.build@, json_from_install(m2));
    lemma_cancel_prefix(
        ",\"install\":"@,
        json_str(m1.install@) + json_from_uninstall(m1),
        json_str(m2.install@) + json_from_uninstall(m2),
    );
    lemma_json_str_code(m1.install@, json_from_uninstall(m1), m2.install@, json_from_uninstall(m2));
    lemma_cancel_prefix(
        ",\"uninstall\":"@,
        json_str(m1.uninstall@) + json_from_purge(m1),
        json_str(m2.uninstall@) + json_from_purge(m2),
    );
    lemma_json_str_code(m1.uninstall@, json_from_purge(m1), m2.uninstall@, json_from_purge(m2));
    lemma_cancel_prefix(
        ",\"purge\":"@,
        json_str(m1.purge@) + json_from_hash(m1),
        json_str(m2.purge@) + json_from_hash(m2),
    );
    lemma_json_str_code(m1.purge@, json_from_hash(m1), m2.purge@, json_from_hash(m2));
    lemma_cancel_prefix(
        ",\"hash\":"@,
        json_str(m1.hash@) + "}"@,
        json_str(m2.hash@) + "}"@,
    );
    lemma_json_str_code(m1.hash@, "}"@, m2.hash@, "}"@);
}

/// Relies on String::push: appends exactly the one given character.
#[verifier::external_body]
fn push_char(out: &mut String, c: char)
    ensures
        final(out)@ == old(out)@ + seq![c],
{
    out.push(c);
}

/// The hexadecimal digit for one value below sixteen, lower case.
fn hex_char(n: u32) -> (c: char)
    requires
        n < 16,
    ensures
        c == hex_digit(n),
{
    if n == 0 {
        '0'
    } else if n == 1 {
        '1'
    } else if n == 2 {
        '2'
    } else if n == 3 {
        '3'
    } else if n == 4 {
        '4'
    } else if n == 5 {
        '5'
    } else if n == 6 {
        '6'
    } else if n == 7 {
        '7'
    } else if n == 8 {
        '8'
    } else if n == 9 {
        '9'
    } else if n == 10 {
        'a'
    } else if n == 11 {
        'b'
    } else if n == 12 {
        'c'
    } else if n == 13 {
        'd'
    } else if n == 14 {
        'e'
    } else {
        'f'
    }
}

/// Appends the JSON escape of one character.
fn append_esc_char(out: &mut String, c: char)
    ensures
        final(out)@ == old(out)@ + esc_char(c),
{
    proof {
        reveal_strlit("\\\"");
        reveal_strlit("\\\\");
        reveal_strlit("\\b");
        reveal_strlit("\\t");
        reveal_strlit("\\n");
        reveal_strlit("\\f");
        reveal_strlit("\\r");
        reveal_strlit("\\u00");
    }
    if c == '"' {
        out.append("\\\"");
        proof {
            assert(out@ =~= old(out)@ + esc_char(c));
        }
    } else if c == '\\' {
        out.append("\\\\");
        proof {
            assert(out@ =~= old(out)@ + esc_char(c));
        }
    } else if c == '\u{8}' {
        out.append("\\b");
        proof {
            assert(out@ =~= old(out)@ + esc_char(c));
        }
    } else if c == '\u{9}' {
        out.append("\\t");
        proof {
            assert(out@ =~= old(out)@ + esc_char(c));
        }
    } else if c == '\u{A}' {
        out.append("\\n");
        proof {
            assert(out@ =~= old(out)@ + esc_char(c));
        }
    } else if c == '\u{C}' {
        out.append("\\f");
        proof {
            assert(out@ =~= old(out)@ + esc_char(c));
        }
    } else if c == '\u{D}' {
        out.append("\\r");
        proof {
            assert(out@ =~= old(out)@ + esc_char(c));
        }
    } else if (c as u32) < 32 {
        let cu = c as u32;
        out.append("\\u00");
        push_char(out, hex_char(cu / 16));
        push_char(out, hex_char(cu % 16));
        proof {
            assert(out@ =~= old(out)@ + esc_char(c));
        }
    } else {
        push_char(out, c);
        proof {
            assert(out@ =~= old(out)@ + esc_char(c));
        }
    }
}

/// Appends one string in its JSON form: quoted and escaped.
fn append_json_str(out: &mut String, s: &str)
    ensures
        final(out)@ == old(out)@ + json_str(s@),
{
    proof {
        reveal_strlit("\"");
    }
    out.append("\"");
    let n = s.unicode_len();
    let mut i: usize = 0;
    proof {
        assert(s@.take(0) =~= Seq::<char>::empty());
        assert(out@ =~= old(out)@ + seq!['"'] + esc(s@.take(0)));
    }
    while i < n
        invariant
            n == s@.len(),
            i <= n,
            out@ == old(out)@ + seq!['"'] + esc(s@.take(i as int)),
        decreases n - i,
    {
        let c = s.get_char(i);
        append_esc_char(out, c);
        proof {
            assert(s@.take(i as int).push(c) =~= s@.take(i + 1));
            lemma_esc_snoc(s@.take(i as int), c);
        }
        i += 1;
    }
    out.append("\"");
    proof {
        assert(s@.take(n as int) =~= s@);
        assert(out@ =~= old(out)@ + json_str(s@));
    }
}

/// Appends one list of strings in its JSON form.
fn append_json_list(out: &mut String, v: &Vec<String>)
    ensures
        final(out)@ == old(out)@ + json_str_list(views_of(v@)),
{
    proof {
        reveal_strlit("[");
        reveal_strlit("]");
        reveal_strlit(",");
    }
    out.append("[");
    let mut i: usize = 0;
    proof {
        assert(views_of(v@).take(0) =~~= Seq::<Seq<char>>::empty());
        assert(out@ =~= old(out)@ + seq!['['] + json_items(views_of(v@).take(0)));
    }
    while i < v.len()
        invariant
            i <= v.len(),
            out@ == old(out)@ + seq!['['] + json_items(views_of(v@).take(i as int)),
        decreases v.len() - i,
    {
        proof {
            reveal_strlit(",");
        }
        if i > 0 {
            out.append(",");
        }
        append_json_str(out, v[i].as_str());
        proof {
            lemma_items_snoc(views_of(v@).take(i as int), v@[i as int]@);
            assert(views_of(v@).take(i as int).push(v@[i as int]@) =~~= views_of(v@).take(i + 1));
            assert(out@ =~= old(out)@ + seq!['['] + json_items(views_of(v@).take(i + 1)));
        }
        i += 1;
    }
    out.append("]");
    proof {
        assert(views_of(v@).take(v@.len() as int) =~~= views_of(v@));
        assert(out@ =~= old(out)@ + json_str_list(views_of(v@)));
    }
}

impl PackageMetadata {
    /// Encodes the descriptor as its JSON wire form: one object holding
    /// every field of the schema, in order, with JSON string escaping.
    pub fn to_json(&self) -> (r: String)
        ensures
            r@ == json_of(*self),
    {
        let mut out = String::new();
        out.append("{\"name\":");
        append_json_str(&mut out, self.name.as_str());
        let ghost g_desc = out@;
        out.append(",\"description\":");
        append_json_str(&mut out, self.description.as_str());
        let ghost g_version = out@;
        out.append(",\"version\":");
        append_json_str(&mut out, self.version.as_str());
        let ghost g_origin = out@;
        out.append(",\"origin\":");
        append_json_str(&mut out, self.origin.as_str());
        let ghost g_bdeps = out@;
        out.append(",\"build_dependencies\":");
        append_json_list(&mut out, &self.build_dependencies);
        let ghost g_rdeps = out@;
        out.append(",\"runtime_dependencies\":");
        append_json_list(&mut out, &self.runtime_dependencies);
        let ghost g_build = out@;
        out.append(",\"build\":");
        append_json_str(&mut out, self.build.as_str());
        let ghost g_install = out@;
        out.append(",\"install\":");
        append_json_str(&mut out, self.install.as_str());
        let ghost g_uninstall = out@;
        out.append(",\"uninstall\":");
        append_json_str(&mut out, self.uninstall.as_str());
        let ghost g_purge = out@;
        out.append(",\"purge\":");
        append_json_str(&mut out, self.purge.as_str());
        let ghost g_hash = out@;
        out.append(",\"hash\":");
        append_json_str(&mut out, self.hash.as_str());
        out.append("}");
        proof {
            // Regroup the appended pieces into the field chain, tail first.
            lemma_regroup(g_hash, ",\"hash\":"@, json_str(self.hash@), "}"@);
            assert(out@ == g_hash + json_from_hash(*self));
            lemma_regroup(g_purge, ",\"purge\":"@, json_str(self.purge@), json_from_hash(*self));
            assert(out@ == g_purge + json_from_purge(*self));
            lemma_regroup(
                g_uninstall,
                ",\"uninstall\":"@,
                json_str(self.uninstall@),
                json_from_purge(*self),
            );
            assert(out@ == g_uninstall + json_from_uninstall(*self));
            lemma_regroup(
                g_install,
                ",\"install\":"@,
                json_str(self.install@),
                json_from_uninstall(*self),
            );
            assert(out@ == g_install + json_from_install(*self));
            lemma_regroup(g_build, ",\"build\":"@, json_str(self.build@), json_from_install(*self));
            assert(out@ == g_build + json_from_build(*self));
            lemma_regroup(
                g_rdeps,
                ",\"runtime_dependencies\":"@,
                json_str_list(views_of(self.runtime_dependencies@)),
                json_from_build(*self),
            );
            assert(out@ == g_rdeps + json_from_runtime_deps(*self));
            lemma_regroup(
                g_bdeps,
                ",\"build_dependencies\":"@,
                json_str_list(views_of(self.build_dependencies@)),
                json_from_runtime_deps(*self),
            );
            assert(out@ == g_bdeps + json_from_build_deps(*self));
            lemma_regroup(g_origin, ",\"origin\":"@, json_str(self.origin@), json_from_build_deps(*self));
            assert(out@ == g_origin + json_from_origin(*self));
            lemma_regroup(g_version, ",\"version\":"@, json_str(self.version@), json_from_origin(*self));
            assert(out@ == g_version + json_from_version(*self));
            lemma_regroup(
                g_desc,
                ",\"description\":"@,
                json_str(self.description@),
                json_from_version(*self),
            );
            assert(out@ == g_desc + json_from_description(*self));
            lemma_regroup(
                Seq::<char>::empty(),
                "{\"name\":"@,
                json_str(self.name@),
                json_from_description(*self),
            );
            assert(Seq::<char>::empty() + json_of(*self) =~= json_of(*self));
            assert(out@ == json_of(*self));
        }
        out
    }
}

} // verus!
