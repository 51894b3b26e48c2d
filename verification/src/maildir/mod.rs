//! Maildir layout rules: the name a message takes when it moves from `new/` to
//! `cur/`, and the order in which directory listings are returned.

pub mod filename;

use vstd::prelude::*;

use self::filename::{
    base_of, find_info, flags_of, flags_to_suffix, info_at, info_marker,
    info_suffix, lemma_first_info_at, lemma_first_info_props, lemma_normalize_idempotent,
    normalized, parsed_filename,
};
use crate::text::{chars_of, push_range, push_text};

verus! {

/// The name a message file takes in `cur/`: its base (everything before the
/// first `:2,`) followed by the info suffix for `flags`.
pub open spec fn cur_name(filename: Seq<char>, flags: Seq<char>) -> Seq<char> {
    base_of(filename) + info_suffix(flags)
}

/// The file name a message from `new/` gets in `cur/` when `flags` are applied:
/// any info suffix it already has is replaced by `:2,` and the normalised flags.
pub fn cur_file_name(filename: &str, flags: &str) -> (r: String)
    ensures
        r@ == cur_name(filename@, flags@),
{
    let chars = chars_of(filename);
    let base_end = match find_info(&chars) {
        Some(p) => p,
        None => {
            assert(chars@.take(chars@.len() as int) =~= chars@);
            chars.len()
        },
    };
    let suffix = flags_to_suffix(flags);
    let mut out = String::new();
    push_range(&mut out, &chars, 0, base_end);
    push_text(&mut out, suffix.as_str());
    assert(chars@.subrange(0, base_end as int) =~= base_of(filename@));
    assert(out@ =~= cur_name(filename@, flags@));
    out
}


/// Moving a message to `cur/` keeps its base name (and so its timestamp and
/// uniquifier) and gives it exactly the normalised `flags`.
pub proof fn lemma_cur_name_applies_flags(filename: Seq<char>, flags: Seq<char>)
    ensures
        base_of(cur_name(filename, flags)) == base_of(filename),
        flags_of(cur_name(filename, flags)) == normalized(flags),
        match parsed_filename(filename) {
            Some((timestamp, uniquifier, _)) => parsed_filename(cur_name(filename, flags)) == Some(
                (timestamp, uniquifier, normalized(flags)),
            ),
            None => parsed_filename(cur_name(filename, flags)) is None,
        },
{
    let b = base_of(filename);
    let n = normalized(flags);
    let s = cur_name(filename, flags);
    let p = b.len() as int;
    lemma_first_info_props(filename, 0);
    assert(s =~= b + info_marker() + n);
    assert forall|i: int| 0 <= i < p implies s[i] == b[i] && b[i] == filename[i] by {}
    assert(s[p] == ':' && s[p + 1] == '2' && s[p + 2] == ',');
    assert forall|q: int| 0 <= q < p implies !info_at(s, q) by {
        if q + 3 <= p {
            assert(s[q] == filename[q] && s[q + 1] == filename[q + 1] && s[q + 2] == filename[q
                + 2]);
            assert(!info_at(filename, q));
        }
    }
    lemma_first_info_at(s, 0, p as nat);
    assert(s.take(p) =~= b);
    assert(s.skip(p + 3) =~= n);
    lemma_normalize_idempotent(flags);
}


// ---------------------------------------------------------------------------
// Listing order
// ---------------------------------------------------------------------------

/// `a` comes no later than `b` in byte-wise lexicographic order (a proper
/// prefix comes first).
pub open spec fn bytes_le(a: Seq<u8>, b: Seq<u8>) -> bool
    decreases a.len(),
{
    if a.len() == 0 {
        true
    } else if b.len() == 0 {
        false
    } else if a[0] != b[0] {
        a[0] < b[0]
    } else {
        bytes_le(a.drop_first(), b.drop_first())
    }
}

/// The names are in non-decreasing byte-wise order.
pub open spec fn names_sorted(names: Seq<Vec<u8>>) -> bool {
    forall|i: int, j: int| 0 <= i < j < names.len() ==> bytes_le(names[i]@, names[j]@)
}

/// Byte-wise order is total.
pub proof fn lemma_bytes_le_total(a: Seq<u8>, b: Seq<u8>)
    ensures
        bytes_le(a, b) || bytes_le(b, a),
    decreases a.len(),
{
    if a.len() > 0 && b.len() > 0 && a[0] == b[0] {
        lemma_bytes_le_total(a.drop_first(), b.drop_first());
    }
}

/// Byte-wise order is reflexive.
pub proof fn lemma_bytes_le_reflexive(a: Seq<u8>)
    ensures
        bytes_le(a, a),
    decreases a.len(),
{
    if a.len() > 0 {
        lemma_bytes_le_reflexive(a.drop_first());
    }
}

/// Byte-wise order is transitive.
pub proof fn lemma_bytes_le_transitive(a: Seq<u8>, b: Seq<u8>, c: Seq<u8>)
    requires
        bytes_le(a, b),
        bytes_le(b, c),
    ensures
        bytes_le(a, c),
    decreases a.len(),
{
    if a.len() > 0 && b.len() > 0 && c.len() > 0 && a[0] == b[0] && b[0] == c[0] {
        lemma_bytes_le_transitive(a.drop_first(), b.drop_first(), c.drop_first());
    }
}

/// Whether `a` comes no later than `b` in byte-wise order.
fn bytes_le_exec(a: &Vec<u8>, b: &Vec<u8>) -> (r: bool)
    ensures
        r == bytes_le(a@, b@),
{
    let mut i: usize = 0;
    assert(a@.skip(0) =~= a@ && b@.skip(0) =~= b@);
    while i < a.len() && i < b.len() && a[i] == b[i]
        invariant
            i <= a@.len(),
            i <= b@.len(),
            bytes_le(a@, b@) == bytes_le(a@.skip(i as int), b@.skip(i as int)),
        decreases a@.len() - i,
    {
        assert(a@.skip(i as int).drop_first() =~= a@.skip(i + 1));
        assert(b@.skip(i as int).drop_first() =~= b@.skip(i + 1));
        i = i + 1;
    }
    if i == a.len() {
        true
    } else if i == b.len() {
        false
    } else {
        assert(a@.skip(i as int)[0] == a@[i as int]);
        assert(b@.skip(i as int)[0] == b@[i as int]);
        a[i] < b[i]
    }
}

/// Sorts file names into non-decreasing byte-wise order, the order of paths
/// that share one directory.
pub fn sort_names(names: Vec<Vec<u8>>) -> (r: Vec<Vec<u8>>)
    ensures
        names_sorted(r@),
        r@.to_multiset() == names@.to_multiset(),
{
    broadcast use vstd::seq_lib::group_to_multiset_ensures;

    let mut rest = names;
    let mut out: Vec<Vec<u8>> = Vec::new();
    while rest.len() > 0
        invariant
            names_sorted(out@),
            out@.to_multiset().add(rest@.to_multiset()) == names@.to_multiset(),
        decreases rest@.len(),
    {
        let ghost before = rest@;
        let x = rest.pop().unwrap();
        proof {
            assert(before =~= rest@.push(x));
            vstd::seq_lib::to_multiset_build(rest@, x);
        }
        let mut j: usize = 0;
        while j < out.len() && bytes_le_exec(&out[j], &x)
            invariant
                j <= out@.len(),
                forall|k: int| 0 <= k < j ==> bytes_le(#[trigger] out@[k]@, x@),
            decreases out@.len() - j,
        {
            j = j + 1;
        }
        let ghost old_out = out@;
        out.insert(j, x);
        proof {
            vstd::seq_lib::to_multiset_insert(old_out, j as int, x);
            assert(out@.to_multiset().add(rest@.to_multiset()) =~= old_out.to_multiset().add(
                before.to_multiset(),
            ));
            assert forall|a: int, b: int| 0 <= a < b < out@.len() implies bytes_le(
                out@[a]@,
                out@[b]@,
            ) by {
                if j < old_out.len() {
                    lemma_bytes_le_total(old_out[j as int]@, x@);
                }
                if a < j && b == j {
                } else if a == j && b > j {
                    if b - 1 == j {
                        lemma_bytes_le_reflexive(old_out[j as int]@);
                    }
                    lemma_bytes_le_transitive(x@, old_out[j as int]@, old_out[b - 1]@);
                } else if a < j && b > j {
                    assert(bytes_le(old_out[a]@, old_out[b - 1]@));
                } else if b < j {
                    assert(bytes_le(old_out[a]@, old_out[b]@));
                } else {
                    assert(bytes_le(old_out[a - 1]@, old_out[b - 1]@));
                }
            }
        }
    }
    out
}

} // verus!
