//! Decoding and encoding of the opaque values the registry stores: scope
//! identifiers kept as 128-bit values behind their textual form, and symmetric
//! keys kept as lowercase hex strings.

use vstd::prelude::*;

verus! {

/// What `uuid::Uuid::parse_str` makes of a string: the 128-bit value of the
/// identifier it denotes, or nothing when the string is malformed.
pub uninterp spec fn parsed_uuid(s: Seq<char>) -> Option<u128>;

/// Relies on `uuid::Uuid::parse_str` (and `Uuid::as_u128`): whether a string
/// parses, and to which value, depends on the characters alone.
#[verifier::external_body]
fn parse_scope_entry(s: &str) -> (r: Option<u128>)
    ensures
        r == parsed_uuid(s@),
{
    match uuid::Uuid::parse_str(s) {
        Ok(u) => Some(u.as_u128()),
        Err(_) => None,
    }
}

/// The lowercase hex digit of a value below sixteen.
pub open spec fn hex_digit(n: u8) -> char {
    if n == 0 {
        '0'
    } else if n == 1 {
        '1'
    } else if n == 2 {
        '2'
    } else if n == 3 {
        '3'
    } else if n == 4 {
        '4'
    } else if n == 5 {
        '5'
    } else if n == 6 {
        '6'
    } else if n == 7 {
        '7'
    } else if n == 8 {
        '8'
    } else if n == 9 {
        '9'
    } else if n == 10 {
        'a'
    } else if n == 11 {
        'b'
    } else if n == 12 {
        'c'
    } else if n == 13 {
        'd'
    } else if n == 14 {
        'e'
    } else {
        'f'
    }
}

/// Lowercase hex encoding of a byte string: two digits per byte, high nibble
/// first.
pub open spec fn hex_of(bytes: Seq<u8>) -> Seq<char>
    decreases bytes.len(),
{
    if bytes.len() == 0 {
        Seq::empty()
    } else {
        hex_of(bytes.drop_last()).push(hex_digit(bytes.last() / 16)).push(
            hex_digit(bytes.last() % 16),
        )
    }
}

/// Relies on `hex::encode`: lowercase hex, two digits per byte, high nibble
/// first.
#[verifier::external_body]
pub(crate) fn encode_key_hex(key: &[u8; 32]) -> (r: String)
    ensures
        r@ == hex_of(key@),
{
    hex::encode(key)
}

/// The set of identifiers that the valid entries of a list of scope strings
/// denote.
pub open spec fn spec_valid_scopes(names: Seq<Seq<char>>) -> Set<u128> {
    Set::new(
        |u: u128|
            exists|i: int| 0 <= i < names.len() && parsed_uuid(#[trigger] names[i]) == Some(u),
    )
}

/// Whether a scope listing holds no identifier twice.
pub open spec fn distinct_names(names: Seq<u128>) -> bool {
    forall|i: int, j: int|
        0 <= i < names.len() && 0 <= j < names.len() && i != j ==> names[i] != names[j]
}

/// A scope listing with every repeated identifier dropped, keeping first
/// occurrences in order: the set a caller hands in, as the store rows it.
pub open spec fn dedup_names(s: Seq<u128>) -> Seq<u128>
    decreases s.len(),
{
    if s.len() == 0 {
        Seq::empty()
    } else if s.drop_last().contains(s.last()) {
        dedup_names(s.drop_last())
    } else {
        dedup_names(s.drop_last()).push(s.last())
    }
}

/// Dropping repeats loses no identifier and invents none.
pub proof fn lemma_dedup_contains(s: Seq<u128>)
    ensures
        forall|u: u128| dedup_names(s).contains(u) <==> s.contains(u),
    decreases s.len(),
{
    broadcast use vstd::seq_lib::group_seq_properties;

    if s.len() > 0 {
        lemma_dedup_contains(s.drop_last());
        assert forall|u: u128| s.contains(u) implies dedup_names(s).contains(u) by {
            let i = choose|i: int| 0 <= i < s.len() && s[i] == u;
            if i < s.len() - 1 {
                assert(s.drop_last()[i] == u);
                assert(s.drop_last().contains(u));
            } else {
                if s.drop_last().contains(s.last()) {
                    assert(s.drop_last().contains(u));
                } else {
                    assert(dedup_names(s)[dedup_names(s).len() - 1] == u);
                }
            }
        }
        assert forall|u: u128| dedup_names(s).contains(u) implies s.contains(u) by {
            let k = choose|k: int| 0 <= k < dedup_names(s).len() && dedup_names(s)[k] == u;
            if s.drop_last().contains(s.last()) {
                assert(dedup_names(s) == dedup_names(s.drop_last()));
                assert(dedup_names(s.drop_last())[k] == u);
                assert(dedup_names(s.drop_last()).contains(u));
                assert(s.drop_last().contains(u));
                let i = choose|i: int| 0 <= i < s.drop_last().len() && s.drop_last()[i] == u;
                assert(s[i] == u);
            } else {
                let d = dedup_names(s.drop_last());
                assert(dedup_names(s) == d.push(s.last()));
                if k < d.len() {
                    assert(d[k] == u);
                    assert(d.contains(u));
                    assert(s.drop_last().contains(u));
                    let i = choose|i: int|
                        0 <= i < s.drop_last().len() && s.drop_last()[i] == u;
                    assert(s[i] == u);
                } else {
                    assert(u == s.last());
                    assert(s[s.len() - 1] == u);
                }
            }
        }
    }
}

/// Dropping repeats leaves each identifier at most once.
pub proof fn lemma_dedup_distinct(s: Seq<u128>)
    ensures
        distinct_names(dedup_names(s)),
    decreases s.len(),
{
    if s.len() > 0 {
        lemma_dedup_distinct(s.drop_last());
        lemma_dedup_contains(s.drop_last());
        if !s.drop_last().contains(s.last()) {
            let d = dedup_names(s.drop_last());
            assert forall|i: int, j: int|
                0 <= i < d.push(s.last()).len() && 0 <= j < d.push(s.last()).len() && i
                    != j implies d.push(s.last())[i] != d.push(s.last())[j] by {
                if i < d.len() && j < d.len() {
                } else if i < d.len() {
                    assert(d.contains(d[i]));
                } else if j < d.len() {
                    assert(d.contains(d[j]));
                }
            }
        }
    }
}

fn vec_contains_u128(v: &Vec<u128>, x: u128) -> (r: bool)
    ensures
        r == v@.contains(x),
{
    let mut i: usize = 0;
    while i < v.len()
        invariant
            i <= v.len(),
            forall|j: int| 0 <= j < i ==> v@[j] != x,
        decreases v.len() - i,
    {
        if v[i] == x {
            return true;
        }
        i += 1;
    }
    false
}

/// Drops repeated identifiers from a scope listing, keeping first
/// occurrences in order.
pub fn dedup_scope_names(names: &Vec<u128>) -> (r: Vec<u128>)
    ensures
        r@ == dedup_names(names@),
{
    let mut out: Vec<u128> = Vec::new();
    let mut i: usize = 0;
    while i < names.len()
        invariant
            i <= names.len(),
            out@ == dedup_names(names@.take(i as int)),
            forall|u: u128| out@.contains(u) <==> names@.take(i as int).contains(u),
        decreases names.len() - i,
    {
        let x = names[i];
        proof {
            broadcast use vstd::seq_lib::group_seq_properties;

            assert(names@.take(i + 1).drop_last() =~= names@.take(i as int));
            assert(names@.take(i + 1).last() == names@[i as int]);
        }
        let ghost out_prev = out@;
        if !vec_contains_u128(&out, x) {
            out.push(x);
        }
        proof {
            broadcast use vstd::seq_lib::group_seq_properties;

            assert(out@ == dedup_names(names@.take(i + 1)));
            assert forall|u: u128| out@.contains(u) <==> names@.take(i + 1).contains(
                u,
            ) by {
                assert(names@.take(i + 1) =~= names@.take(i as int).push(x));
            }
        }
        i += 1;
    }
    proof {
        assert(names@.take(names@.len() as int) =~= names@);
    }
    out
}

/// Decodes a list of scope strings into the set of identifiers its valid
/// entries denote. An entry that does not parse as a scope identifier is
/// silently omitted rather than failing the whole read: a deliberate
/// compatibility decision, kept from the stored format, that tolerates
/// foreign rows at the price of masking corrupt ones.
pub fn parse_scopes_and_ignore_invalid(scopes: &[String]) -> (r: Vec<u128>)
    ensures
        distinct_names(r@),
        forall|u: u128|
            r@.contains(u) <==> spec_valid_scopes(
                scopes@.map_values(|s: String| s@),
            ).contains(u),
{
    let ghost names = scopes@.map_values(|s: String| s@);
    let mut r: Vec<u128> = Vec::new();
    let mut i: usize = 0;
    while i < scopes.len()
        invariant
            i <= scopes.len(),
            names == scopes@.map_values(|s: String| s@),
            distinct_names(r@),
            forall|u: u128|
                r@.contains(u) <==> exists|j: int|
                    0 <= j < i && parsed_uuid(#[trigger] names[j]) == Some(u),
        decreases scopes.len() - i,
    {
        let parsed = parse_scope_entry(&scopes[i]);
        proof {
            assert(names[i as int] == scopes@[i as int]@);
        }
        let ghost r_prev = r@;
        match parsed {
            Some(u) => {
                if !vec_contains_u128(&r, u) {
                    r.push(u);
                }
            },
            None => {},
        }
        proof {
            broadcast use vstd::seq_lib::group_seq_properties;

            assert forall|u: u128| r@.contains(u) implies exists|j: int|
                0 <= j < i + 1 && parsed_uuid(#[trigger] names[j]) == Some(u) by {
                if r_prev.contains(u) {
                    let j = choose|j: int|
                        0 <= j < i && parsed_uuid(#[trigger] names[j]) == Some(u);
                    assert(parsed_uuid(names[j]) == Some(u));
                } else {
                    assert(r@ == r_prev.push(u));
                    assert(r@[r@.len() - 1] == u);
                    assert(parsed_uuid(names[i as int]) == Some(u));
                }
            }
            assert forall|u: u128|
                (exists|j: int|
                    0 <= j < i + 1 && parsed_uuid(#[trigger] names[j]) == Some(u)) implies r@
                .contains(u) by {
                let j = choose|j: int|
                    0 <= j < i + 1 && parsed_uuid(#[trigger] names[j]) == Some(u);
                if j < i {
                    assert(r_prev.contains(u));
                } else {
                    assert(parsed == Some(u));
                }
            }
        }
        i += 1;
    }
    r
}

} // verus!
