//! The indexed-parameter grammar and its extractor.
//!
//! Request bodies arrive as a flat list of `(key, value)` pairs.  Repeated
//! parameters are encoded positionally: a key of the form
//! `<Prefix>.<index>.<Field>` contributes the field `<Field>` of the entry
//! with the given 1-based index.  The extractor groups such pairs into an
//! ordered list of `(name, value)` entries, sorted by ascending index, with
//! entries whose name is empty discarded and malformed indices ignored.
use crate::ascii::{is_digit, is_digit_char, lower, str_eq, str_eq_nocase};
use vstd::prelude::*;

verus! {

/// One decoded `(name, value)` entry of an indexed parameter group.
#[derive(Debug, Clone)]
pub struct ParamValues {
    pub name: String,
    pub value: String,
}

impl View for ParamValues {
    type V = (Seq<char>, Seq<char>);

    open spec fn view(&self) -> (Seq<char>, Seq<char>) {
        (self.name@, self.value@)
    }
}

/// Whether `key` starts with prefix `p` (compared up to ASCII case) followed
/// by a dot.
pub open spec fn prefix_matches(key: Seq<char>, p: Seq<char>) -> bool {
    &&& key.len() > p.len()
    &&& lower(key.take(p.len() as int)) == lower(p)
    &&& key[p.len() as int] == '.'
}

/// The length of the first prefix in `prefixes[i..]` that matches `key`.
pub open spec fn matched_prefix_len_from(
    key: Seq<char>,
    prefixes: Seq<Seq<char>>,
    i: int,
) -> Option<nat>
    decreases prefixes.len() - i,
{
    if i < 0 || i >= prefixes.len() {
        None
    } else if prefix_matches(key, prefixes[i]) {
        Some(prefixes[i].len())
    } else {
        matched_prefix_len_from(key, prefixes, i + 1)
    }
}

/// The length of the first prefix in `prefixes` that matches `key`.
pub open spec fn matched_prefix_len(key: Seq<char>, prefixes: Seq<Seq<char>>) -> Option<nat> {
    matched_prefix_len_from(key, prefixes, 0)
}

/// The length of the leading run of decimal digits of `s`.
pub open spec fn digit_run(s: Seq<char>) -> nat
    decreases s.len(),
{
    if s.len() == 0 || !is_digit(s[0]) {
        0
    } else {
        (1 + digit_run(s.skip(1))) as nat
    }
}

/// The numeric value of a sequence of decimal digits, most significant first.
pub open spec fn digits_val(s: Seq<char>) -> nat
    decreases s.len(),
{
    if s.len() == 0 {
        0
    } else {
        (digits_val(s.drop_last()) * 10 + (if is_digit(s.last()) {
            (s.last() as u32 - 48) as nat
        } else {
            0
        })) as nat
    }
}

/// Parses `key` against the indexed-parameter grammar
/// `<Prefix>.<index>.<Field>`: a matching prefix, a dot, a non-empty digit
/// run whose value is at least 1, a dot, and a non-empty field name.
/// Malformed keys (no matching prefix, a non-numeric or zero index, a
/// missing field) parse to `None`.
pub open spec fn parse_key(key: Seq<char>, prefixes: Seq<Seq<char>>) -> Option<(nat, Seq<char>)> {
    match matched_prefix_len(key, prefixes) {
        None => None,
        Some(plen) => {
            let rest = key.skip(plen as int + 1);
            let d = digit_run(rest);
            if 1 <= d && d + 1 < rest.len() && rest[d as int] == '.' {
                let idx = digits_val(rest.take(d as int));
                if idx >= 1 {
                    Some((idx, rest.skip(d as int + 1)))
                } else {
                    None
                }
            } else {
                None
            }
        },
    }
}

/// Executable test of `prefix_matches`.
fn prefix_matches_exec(key: &str, p: &str) -> (r: bool)
    ensures
        r == prefix_matches(key@, p@),
{
    let klen = key.unicode_len();
    let plen = p.unicode_len();
    if klen <= plen {
        return false;
    }
    if key.get_char(plen) != '.' {
        return false;
    }
    let head = key.substring_char(0, plen);
    assert(head@ =~= key@.take(plen as int));
    str_eq_nocase(head, p)
}

/// A run of digits is at least `k` long if the first `k` characters are
/// digits.
proof fn lemma_digit_run_at_least(s: Seq<char>, k: int)
    requires
        0 <= k <= s.len(),
        forall|j: int| 0 <= j < k ==> is_digit(s[j]),
    ensures
        digit_run(s) >= k,
    decreases k,
{
    if k > 0 {
        lemma_digit_run_at_least(s.skip(1), k - 1);
    }
}

/// A digit run never extends past the end of the sequence.
proof fn lemma_digit_run_le_len(s: Seq<char>)
    ensures
        digit_run(s) <= s.len(),
    decreases s.len(),
{
    if s.len() > 0 && is_digit(s[0]) {
        lemma_digit_run_le_len(s.skip(1));
    }
}

/// The digit run ends exactly at the first non-digit position.
proof fn lemma_digit_run_exact(s: Seq<char>, k: int)
    requires
        0 <= k <= s.len(),
        forall|j: int| 0 <= j < k ==> is_digit(s[j]),
        k == s.len() || !is_digit(s[k]),
    ensures
        digit_run(s) == k,
    decreases k,
{
    if k == 0 {
    } else {
        assert(is_digit(s[0]));
        lemma_digit_run_exact(s.skip(1), k - 1);
    }
}

/// Appending one more digit multiplies the value by ten.
proof fn lemma_digits_val_step(s: Seq<char>, j: int)
    requires
        0 <= j < s.len(),
    ensures
        digits_val(s.take(j + 1)) == digits_val(s.take(j)) * 10 + (if is_digit(s[j]) {
            (s[j] as u32 - 48) as nat
        } else {
            0
        }),
{
    assert(s.take(j + 1).drop_last() =~= s.take(j));
    assert(s.take(j + 1).last() == s[j]);
}

/// The value of a digit run never shrinks as the run grows.
proof fn lemma_digits_val_monotone(s: Seq<char>, j: int, k: int)
    requires
        0 <= j <= k <= s.len(),
    ensures
        digits_val(s.take(k)) >= digits_val(s.take(j)),
    decreases k - j,
{
    if j < k {
        lemma_digits_val_monotone(s, j, k - 1);
        lemma_digits_val_step(s, k - 1);
    }
}

/// Executable parse of an indexed-parameter key.  Returns the index and the
/// field name of a well-formed key whose index fits in a `u64`; indices
/// beyond `u64::MAX` are treated like malformed keys and ignored.
pub fn parse_indexed_key(key: &str, prefixes: &Vec<String>) -> (r: Option<(u64, String)>)
    ensures
        r is Some ==> parse_key(key@, prefixes.deep_view()) == Some(
            ((r.unwrap().0 as nat), r.unwrap().1@),
        ),
        r is None ==> (parse_key(key@, prefixes.deep_view()) is None || parse_key(
            key@,
            prefixes.deep_view(),
        ).unwrap().0 > u64::MAX),
{
    let ghost pv = prefixes.deep_view();
    let klen = key.unicode_len();

    // Find the first matching prefix.
    let mut pi: usize = 0;
    let mut plen_found: Option<usize> = None;
    while pi < prefixes.len() && plen_found.is_none()
        invariant
            0 <= pi <= prefixes.len(),
            pv.len() == prefixes@.len(),
            forall|q: int| 0 <= q < pv.len() ==> pv[q] == #[trigger] prefixes@[q]@,
            plen_found is None ==> matched_prefix_len(key@, pv) == matched_prefix_len_from(
                key@,
                pv,
                pi as int,
            ),
            plen_found matches Some(l) ==> matched_prefix_len(key@, pv) == Some(l as nat),
            plen_found is Some ==> plen_found.unwrap() < key@.len(),
        decreases prefixes.len() - pi,
    {
        if prefix_matches_exec(key, prefixes[pi].as_str()) {
            let l = prefixes[pi].as_str().unicode_len();
            plen_found = Some(l);
        }
        pi = pi + 1;
    }
    let plen = match plen_found {
        Some(l) => l,
        None => {
            return None;
        },
    };

    let ghost rest = key@.skip(plen + 1);
    assert(rest.len() == klen - plen - 1);

    // Scan the digit run, accumulating its value.
    let mut pos: usize = plen + 1;
    let mut val: u64 = 0;
    while pos < klen && is_digit_char(key.get_char(pos))
        invariant
            plen + 1 <= pos <= klen,
            klen == key@.len(),
            plen + 1 <= klen,
            pv == prefixes.deep_view(),
            matched_prefix_len(key@, pv) == Some(plen as nat),
            rest == key@.skip(plen + 1),
            forall|j: int| 0 <= j < pos - plen - 1 ==> is_digit(rest[j]),
            val as nat == digits_val(rest.take(pos - plen - 1)),
        decreases klen - pos,
    {
        let c = key.get_char(pos);
        let d = (c as u32 - 48) as u64;
        assert(rest[pos - plen - 1] == key@[pos as int]);
        proof {
            lemma_digits_val_step(rest, pos - plen - 1);
        }
        if val > (u64::MAX - d) / 10 {
            // The index cannot fit in a u64; the whole digit run can only be
            // larger still, so the key is ignored.
            proof {
                let j = pos - plen - 1;
                assert(digits_val(rest.take(j + 1)) == val as nat * 10 + d as nat);
                assert(val as nat * 10 + d as nat > u64::MAX) by {
                    assert(val >= (u64::MAX - d) / 10 + 1);
                    assert((((u64::MAX - d) / 10 + 1) as nat) * 10 + d as nat > u64::MAX) by (nonlinear_arith);
                    assert(val as nat * 10 >= (((u64::MAX - d) / 10 + 1) as nat) * 10) by (nonlinear_arith)
                        requires val as nat >= ((u64::MAX - d) / 10 + 1) as nat;
                };
                let dr = digit_run(rest) as int;
                lemma_digit_run_le_len(rest);
                lemma_digit_run_at_least(rest, j + 1);
                lemma_digits_val_monotone(rest, j + 1, dr);
                assert(digits_val(rest.take(dr)) > u64::MAX);
            }
            return None;
        }
        val = val * 10 + d;
        pos = pos + 1;
    }
    proof {
        lemma_digit_run_exact(rest, pos - plen - 1);
    }
    let dcount = pos - (plen + 1);
    if dcount == 0 {
        return None;
    }
    if pos >= klen {
        return None;
    }
    if key.get_char(pos) != '.' {
        assert(rest[digit_run(rest) as int] != '.');
        return None;
    }
    if pos + 1 >= klen {
        return None;
    }
    if val == 0 {
        return None;
    }
    let field = key.substring_char(pos + 1, klen).to_owned();
    assert(field@ =~= rest.skip(digit_run(rest) as int + 1));
    Some((val, field))
}

/// The field key that carries an entry's name.
pub open spec fn name_field() -> Seq<char> {
    "Name"@
}

/// The field key that carries an entry's value.
pub open spec fn value_field() -> Seq<char> {
    "Value"@
}

/// The value of field `field` of the entry with index `idx`, taken from the
/// last pair whose key parses to `(idx, field)`; empty if no pair does.
pub open spec fn field_at(
    pairs: Seq<(Seq<char>, Seq<char>)>,
    prefixes: Seq<Seq<char>>,
    idx: nat,
    field: Seq<char>,
) -> Seq<char>
    decreases pairs.len(),
{
    if pairs.len() == 0 {
        Seq::empty()
    } else if parse_key(pairs.last().0, prefixes) == Some((idx, field)) {
        pairs.last().1
    } else {
        field_at(pairs.drop_last(), prefixes, idx, field)
    }
}

/// The name of the entry with index `idx`.
pub open spec fn name_at(
    pairs: Seq<(Seq<char>, Seq<char>)>,
    prefixes: Seq<Seq<char>>,
    idx: nat,
) -> Seq<char> {
    field_at(pairs, prefixes, idx, name_field())
}

/// The value of the entry with index `idx`.
pub open spec fn value_at(
    pairs: Seq<(Seq<char>, Seq<char>)>,
    prefixes: Seq<Seq<char>>,
    idx: nat,
) -> Seq<char> {
    field_at(pairs, prefixes, idx, value_field())
}

/// A non-empty field can only come from some pair that parses to it.
proof fn lemma_field_at_nonempty_exists(
    pairs: Seq<(Seq<char>, Seq<char>)>,
    prefixes: Seq<Seq<char>>,
    idx: nat,
    field: Seq<char>,
)
    requires
        field_at(pairs, prefixes, idx, field).len() > 0,
    ensures
        exists|q: int|
            0 <= q < pairs.len() && parse_key(#[trigger] pairs[q].0, prefixes) == Some(
                (idx, field),
            ),
    decreases pairs.len(),
{
    if pairs.len() > 0 {
        if parse_key(pairs.last().0, prefixes) == Some((idx, field)) {
            assert(pairs[pairs.len() - 1] == pairs.last());
        } else {
            lemma_field_at_nonempty_exists(pairs.drop_last(), prefixes, idx, field);
            let q = choose|q: int|
                0 <= q < pairs.drop_last().len() && parse_key(
                    #[trigger] pairs.drop_last()[q].0,
                    prefixes,
                ) == Some((idx, field));
            assert(pairs[q] == pairs.drop_last()[q]);
        }
    }
}

/// The entries with indices in `lo..hi` (1-based), in ascending index order,
/// each carrying its index, its name, and its value; indices whose name is
/// empty contribute nothing.
pub open spec fn indexed_entries_between(
    pairs: Seq<(Seq<char>, Seq<char>)>,
    prefixes: Seq<Seq<char>>,
    lo: int,
    hi: int,
) -> Seq<(nat, Seq<char>, Seq<char>)>
    decreases hi - lo,
{
    if lo >= hi {
        Seq::empty()
    } else {
        let head = if name_at(pairs, prefixes, lo as nat).len() > 0 {
            seq![
                (
                    lo as nat,
                    name_at(pairs, prefixes, lo as nat),
                    value_at(pairs, prefixes, lo as nat),
                ),
            ]
        } else {
            Seq::empty()
        };
        head + indexed_entries_between(pairs, prefixes, lo + 1, hi)
    }
}

/// One past the largest index the extractor considers: indices are decoded
/// into a `u64`, so larger ones are treated as malformed and ignored.
pub open spec fn index_bound() -> int {
    0x10000000000000000
}

/// Forgets the index component of each indexed entry.
pub open spec fn drop_indices(s: Seq<(nat, Seq<char>, Seq<char>)>) -> Seq<(Seq<char>, Seq<char>)> {
    s.map_values(|e: (nat, Seq<char>, Seq<char>)| (e.1, e.2))
}

/// The views of a list of extracted entries.
pub open spec fn params_view(s: Seq<ParamValues>) -> Seq<(Seq<char>, Seq<char>)> {
    s.map_values(|p: ParamValues| p@)
}

/// What the extractor returns: the `(name, value)` entries of all indices,
/// in ascending index order, without the entries whose name is empty.
pub open spec fn extract_entries(
    prefixes: Seq<Seq<char>>,
    pairs: Seq<(Seq<char>, Seq<char>)>,
) -> Seq<(Seq<char>, Seq<char>)> {
    drop_indices(indexed_entries_between(pairs, prefixes, 1, index_bound()))
}

/// Entries of a range carry distinct ascending indices within the range,
/// the name and value belonging to their index, and never an empty name.
proof fn lemma_entries_between_props(
    pairs: Seq<(Seq<char>, Seq<char>)>,
    prefixes: Seq<Seq<char>>,
    lo: int,
    hi: int,
)
    requires
        1 <= lo,
    ensures
        forall|a: int, b: int|
            0 <= a < b < indexed_entries_between(pairs, prefixes, lo, hi).len()
                ==> (#[trigger] indexed_entries_between(pairs, prefixes, lo, hi)[a]).0 < (
            #[trigger] indexed_entries_between(pairs, prefixes, lo, hi)[b]).0,
        forall|a: int|
            0 <= a < indexed_entries_between(pairs, prefixes, lo, hi).len() ==> {
                let e = #[trigger] indexed_entries_between(pairs, prefixes, lo, hi)[a];
                lo <= e.0 < hi && e.1 == name_at(pairs, prefixes, e.0) && e.2 == value_at(
                    pairs,
                    prefixes,
                    e.0,
                ) && e.1.len() > 0
            },
    decreases hi - lo,
{
    if lo < hi {
        lemma_entries_between_props(pairs, prefixes, lo + 1, hi);
        let ie = indexed_entries_between(pairs, prefixes, lo, hi);
        let rest = indexed_entries_between(pairs, prefixes, lo + 1, hi);
        let head = if name_at(pairs, prefixes, lo as nat).len() > 0 {
            seq![
                (
                    lo as nat,
                    name_at(pairs, prefixes, lo as nat),
                    value_at(pairs, prefixes, lo as nat),
                ),
            ]
        } else {
            Seq::<(nat, Seq<char>, Seq<char>)>::empty()
        };
        assert(ie == head + rest);
        assert forall|a: int| 0 <= a < ie.len() implies {
            let e = #[trigger] ie[a];
            lo <= e.0 < hi && e.1 == name_at(pairs, prefixes, e.0) && e.2 == value_at(
                pairs,
                prefixes,
                e.0,
            ) && e.1.len() > 0
        } by {
            if a < head.len() {
                assert(ie[a] == head[a]);
            } else {
                assert(ie[a] == rest[a - head.len()]);
            }
        };
        assert forall|a: int, b: int| 0 <= a < b < ie.len() implies (#[trigger] ie[a]).0 < (
        #[trigger] ie[b]).0 by {
            if a < head.len() {
                assert(ie[a].0 == lo);
                assert(ie[b] == rest[b - head.len()]);
            } else {
                assert(ie[a] == rest[a - head.len()]);
                assert(ie[b] == rest[b - head.len()]);
            }
        };
    }
}

/// The extractor's output, entry by entry: each entry belongs to a distinct
/// index, entries appear in strictly ascending index order, each entry holds
/// exactly the name and value decoded for its index, and no entry has an
/// empty name.
pub proof fn lemma_extract_entries_ordered(
    prefixes: Seq<Seq<char>>,
    pairs: Seq<(Seq<char>, Seq<char>)>,
)
    ensures
        extract_entries(prefixes, pairs) == drop_indices(
            indexed_entries_between(pairs, prefixes, 1, index_bound()),
        ),
        forall|a: int, b: int|
            0 <= a < b < indexed_entries_between(pairs, prefixes, 1, index_bound()).len()
                ==> (#[trigger] indexed_entries_between(pairs, prefixes, 1, index_bound())[a]).0 < (
            #[trigger] indexed_entries_between(pairs, prefixes, 1, index_bound())[b]).0,
        forall|a: int|
            0 <= a < indexed_entries_between(pairs, prefixes, 1, index_bound()).len() ==> {
                let e = #[trigger] indexed_entries_between(pairs, prefixes, 1, index_bound())[a];
                1 <= e.0 && e.1 == name_at(pairs, prefixes, e.0) && e.2 == value_at(
                    pairs,
                    prefixes,
                    e.0,
                ) && e.1.len() > 0
            },
        forall|a: int|
            0 <= a < extract_entries(prefixes, pairs).len()
                ==> (#[trigger] extract_entries(prefixes, pairs)[a]).0.len() > 0,
{
    lemma_entries_between_props(pairs, prefixes, 1, index_bound());
    assert forall|a: int| 0 <= a < extract_entries(prefixes, pairs).len() implies (
    #[trigger] extract_entries(prefixes, pairs)[a]).0.len() > 0 by {
        let ie = indexed_entries_between(pairs, prefixes, 1, index_bound());
        assert(extract_entries(prefixes, pairs)[a] == (ie[a].1, ie[a].2));
    };
}

/// Splitting an index range splits the entry list.
proof fn lemma_entries_split(
    pairs: Seq<(Seq<char>, Seq<char>)>,
    prefixes: Seq<Seq<char>>,
    lo: int,
    mid: int,
    hi: int,
)
    requires
        lo <= mid <= hi,
    ensures
        indexed_entries_between(pairs, prefixes, lo, hi) == indexed_entries_between(
            pairs,
            prefixes,
            lo,
            mid,
        ) + indexed_entries_between(pairs, prefixes, mid, hi),
    decreases mid - lo,
{
    if lo == mid {
        assert(indexed_entries_between(pairs, prefixes, lo, mid) + indexed_entries_between(
            pairs,
            prefixes,
            mid,
            hi,
        ) =~= indexed_entries_between(pairs, prefixes, mid, hi));
    } else {
        lemma_entries_split(pairs, prefixes, lo + 1, mid, hi);
        assert(indexed_entries_between(pairs, prefixes, lo, hi) =~= indexed_entries_between(
            pairs,
            prefixes,
            lo,
            mid,
        ) + indexed_entries_between(pairs, prefixes, mid, hi));
    }
}

/// A range without any named index contributes no entries.
proof fn lemma_entries_empty(
    pairs: Seq<(Seq<char>, Seq<char>)>,
    prefixes: Seq<Seq<char>>,
    lo: int,
    hi: int,
)
    requires
        forall|k: nat| lo <= k < hi ==> name_at(pairs, prefixes, k).len() == 0,
        1 <= lo,
    ensures
        indexed_entries_between(pairs, prefixes, lo, hi) == Seq::<
            (nat, Seq<char>, Seq<char>),
        >::empty(),
    decreases hi - lo,
{
    if lo < hi {
        assert(name_at(pairs, prefixes, lo as nat).len() == 0);
        lemma_entries_empty(pairs, prefixes, lo + 1, hi);
        assert(indexed_entries_between(pairs, prefixes, lo, hi) =~= Seq::<
            (nat, Seq<char>, Seq<char>),
        >::empty());
    }
}

/// Whether a sequence of indices is strictly ascending.
pub open spec fn strictly_sorted(s: Seq<u64>) -> bool {
    forall|a: int, b: int| 0 <= a < b < s.len() ==> s[a] < s[b]
}

/// Inserts `x` into a strictly sorted vector, keeping it strictly sorted;
/// a duplicate is dropped.
fn insert_sorted(idxs: &mut Vec<u64>, x: u64)
    requires
        strictly_sorted(old(idxs)@),
    ensures
        strictly_sorted(final(idxs)@),
        forall|y: u64| final(idxs)@.contains(y) <==> (old(idxs)@.contains(y) || y == x),
{
    let mut p: usize = 0;
    while p < idxs.len() && idxs[p] < x
        invariant
            0 <= p <= idxs@.len(),
            idxs@ == old(idxs)@,
            strictly_sorted(idxs@),
            forall|q: int| 0 <= q < p ==> idxs@[q] < x,
        decreases idxs@.len() - p,
    {
        p = p + 1;
    }
    if p < idxs.len() && idxs[p] == x {
        proof {
            assert(old(idxs)@.contains(x));
        }
        return ;
    }
    idxs.insert(p, x);
    proof {
        let newv = idxs@;
        let oldv = old(idxs)@;
        assert forall|a: int, b: int| 0 <= a < b < newv.len() implies newv[a] < newv[b] by {
            if b < p {
                assert(newv[a] == oldv[a] && newv[b] == oldv[b]);
            } else if a < p && b == p {
                assert(newv[a] == oldv[a]);
            } else if a < p && b > p {
                assert(newv[a] == oldv[a] && newv[b] == oldv[b - 1]);
                assert(oldv[a] < x);
                assert(oldv[b - 1] >= x);
            } else if a == p {
                assert(newv[b] == oldv[b - 1] && b - 1 >= p);
                assert(oldv[b - 1] >= x);
                assert(oldv[b - 1] != x);
            } else {
                assert(newv[a] == oldv[a - 1] && newv[b] == oldv[b - 1]);
            }
        };
        assert forall|y: u64| newv.contains(y) implies (oldv.contains(y) || y == x) by {
            let q = choose|q: int| 0 <= q < newv.len() && newv[q] == y;
            if q < p {
                assert(oldv[q] == y);
            } else if q == p {
            } else {
                assert(oldv[q - 1] == y);
            }
        };
        assert forall|y: u64| (oldv.contains(y) || y == x) implies newv.contains(y) by {
            if y == x {
                assert(newv[p as int] == x);
            } else {
                let q = choose|q: int| 0 <= q < oldv.len() && oldv[q] == y;
                if q < p {
                    assert(newv[q] == y);
                } else {
                    assert(newv[q + 1] == y);
                }
            }
        };
    }
}

/// Looks up field `field` of the entry with index `idx`: the value of the
/// last pair whose key parses to `(idx, field)`, or the empty string.
fn lookup_field(
    extra: &Vec<(String, String)>,
    prefixes: &Vec<String>,
    idx: u64,
    field: &str,
) -> (r: String)
    ensures
        r@ == field_at(extra.deep_view(), prefixes.deep_view(), idx as nat, field@),
{
    let ghost dv = extra.deep_view();
    let ghost pv = prefixes.deep_view();
    proof {
        assert forall|q: int| 0 <= q < dv.len() implies dv[q] == (
            #[trigger] extra@[q].0@,
            extra@[q].1@,
        ) by {
            assert(dv[q] == extra@[q].deep_view());
        };
    }
    let mut res = String::new();
    let mut j: usize = 0;
    while j < extra.len()
        invariant
            0 <= j <= extra@.len(),
            dv == extra.deep_view(),
            pv == prefixes.deep_view(),
            dv.len() == extra@.len(),
            forall|q: int| 0 <= q < dv.len() ==> dv[q] == (#[trigger] extra@[q].0@, extra@[q].1@),
            res@ == field_at(dv.take(j as int), pv, idx as nat, field@),
        decreases extra@.len() - j,
    {
        let parsed = parse_indexed_key(extra[j].0.as_str(), prefixes);
        let is_match = match &parsed {
            Some(p) => p.0 == idx && str_eq(p.1.as_str(), field),
            None => false,
        };
        proof {
            assert(dv.take(j + 1).drop_last() =~= dv.take(j as int));
            assert(dv.take(j + 1).last() == dv[j as int]);
        }
        if is_match {
            res = extra[j].1.clone();
        }
        j = j + 1;
    }
    proof {
        assert(dv.take(dv.len() as int) =~= dv);
    }
    res
}

/// Extracts the indexed-parameter entries of `extra` for the given key
/// prefixes: one `(name, value)` entry per index whose name is non-empty,
/// sorted by ascending index.  Malformed keys never fail the extraction,
/// they are simply ignored, so the result is always `Some`.
pub fn extract_from_extra(prefixes: &Vec<String>, extra: &Vec<(String, String)>) -> (r: Option<
    Vec<ParamValues>,
>)
    ensures
        r is Some,
        params_view(r.unwrap()@) == extract_entries(prefixes.deep_view(), extra.deep_view()),
{
    let ghost dv = extra.deep_view();
    let ghost pv = prefixes.deep_view();
    proof {
        assert forall|q: int| 0 <= q < dv.len() implies dv[q] == (
            #[trigger] extra@[q].0@,
            extra@[q].1@,
        ) by {
            assert(dv[q] == extra@[q].deep_view());
        };
    }

    // Gather the distinct recognized indices, kept strictly ascending.
    let mut idxs: Vec<u64> = Vec::new();
    let mut j: usize = 0;
    while j < extra.len()
        invariant
            0 <= j <= extra@.len(),
            dv == extra.deep_view(),
            pv == prefixes.deep_view(),
            dv.len() == extra@.len(),
            forall|q: int| 0 <= q < dv.len() ==> dv[q] == (#[trigger] extra@[q].0@, extra@[q].1@),
            strictly_sorted(idxs@),
            forall|u: int| 0 <= u < idxs@.len() ==> #[trigger] idxs@[u] >= 1,
            forall|q: int|
                0 <= q < j && (#[trigger] parse_key(dv[q].0, pv)) is Some && parse_key(
                    dv[q].0,
                    pv,
                ).unwrap().0 <= u64::MAX ==> idxs@.contains(
                    parse_key(dv[q].0, pv).unwrap().0 as u64,
                ),
        decreases extra@.len() - j,
    {
        match parse_indexed_key(extra[j].0.as_str(), prefixes) {
            Some(p) => {
                let ghost idxs0 = idxs@;
                proof {
                    assert(parse_key(dv[j as int].0, pv).unwrap().0 >= 1);
                }
                insert_sorted(&mut idxs, p.0);
                proof {
                    assert forall|u: int| 0 <= u < idxs@.len() implies #[trigger] idxs@[u]
                        >= 1 by {
                        let y = idxs@[u];
                        assert(idxs@.contains(y));
                        if idxs0.contains(y) {
                            let q = choose|q: int| 0 <= q < idxs0.len() && idxs0[q] == y;
                            assert(idxs0[q] >= 1);
                        }
                    };
                }
            },
            None => {},
        }
        j = j + 1;
    }

    proof {
        assert forall|k: nat|
            1 <= k <= u64::MAX && #[trigger] name_at(dv, pv, k).len() > 0 implies idxs@.contains(
            k as u64,
        ) by {
            lemma_field_at_nonempty_exists(dv, pv, k, name_field());
            let q = choose|q: int|
                0 <= q < dv.len() && parse_key(#[trigger] dv[q].0, pv) == Some((k, name_field()));
            assert(parse_key(dv[q].0, pv).unwrap().0 == k);
        };
    }

    // Walk the indices in order and build the entries.
    let mut res: Vec<ParamValues> = Vec::new();
    let ghost mut cur: int = 1;
    let mut t: usize = 0;
    while t < idxs.len()
        invariant
            0 <= t <= idxs@.len(),
            dv == extra.deep_view(),
            pv == prefixes.deep_view(),
            strictly_sorted(idxs@),
            forall|u: int| 0 <= u < idxs@.len() ==> #[trigger] idxs@[u] >= 1,
            forall|k: nat|
                1 <= k <= u64::MAX && #[trigger] name_at(dv, pv, k).len() > 0 ==> idxs@.contains(
                    k as u64,
                ),
            1 <= cur <= index_bound(),
            forall|u: int| 0 <= u < t ==> (#[trigger] idxs@[u] as int) < cur,
            forall|u: int| t <= u < idxs@.len() ==> (#[trigger] idxs@[u] as int) >= cur,
            params_view(res@) == drop_indices(indexed_entries_between(dv, pv, 1, cur)),
        decreases idxs@.len() - t,
    {
        let i = idxs[t];
        proof {
            assert forall|k: nat| cur <= k < i as int implies name_at(dv, pv, k).len() == 0 by {
                if name_at(dv, pv, k).len() > 0 {
                    assert(idxs@.contains(k as u64));
                    let u = choose|u: int| 0 <= u < idxs@.len() && idxs@[u] == k as u64;
                    if u < t {
                        assert((idxs@[u] as int) < cur);
                    } else {
                        assert(idxs@[u] >= idxs@[t as int]);
                    }
                }
            };
            lemma_entries_empty(dv, pv, cur, i as int);
            lemma_entries_split(dv, pv, 1, cur, i as int);
            assert(indexed_entries_between(dv, pv, 1, i as int) =~= indexed_entries_between(
                dv,
                pv,
                1,
                cur,
            ));
        }
        let name = lookup_field(extra, prefixes, i, "Name");
        let value = lookup_field(extra, prefixes, i, "Value");
        let ghost prev = params_view(res@);
        if !name.as_str().is_empty() {
            res.push(ParamValues { name, value });
        }
        proof {
            lemma_entries_split(dv, pv, 1, i as int, i as int + 1);
            let head = indexed_entries_between(dv, pv, i as int, i as int + 1);
            assert(indexed_entries_between(dv, pv, i as int + 1, i as int + 1)
                =~= Seq::<(nat, Seq<char>, Seq<char>)>::empty());
            if name_at(dv, pv, i as nat).len() > 0 {
                assert(head =~= seq![
                    (i as nat, name_at(dv, pv, i as nat), value_at(dv, pv, i as nat)),
                ]);
            } else {
                assert(head =~= Seq::<(nat, Seq<char>, Seq<char>)>::empty());
            }
            let lhs = params_view(res@);
            let rhs = drop_indices(indexed_entries_between(dv, pv, 1, i as int + 1));
            assert(indexed_entries_between(dv, pv, 1, i as int + 1) == indexed_entries_between(
                dv,
                pv,
                1,
                i as int,
            ) + head);
            assert(lhs.len() == res@.len());
            assert(prev.len() == indexed_entries_between(dv, pv, 1, cur).len());
            assert(indexed_entries_between(dv, pv, 1, i as int).len() == prev.len());
            assert(rhs.len() == indexed_entries_between(dv, pv, 1, i as int).len() + head.len());
            if name_at(dv, pv, i as nat).len() > 0 {
                assert(head.len() == 1);
                assert(res@.len() == prev.len() + 1);
            } else {
                assert(head.len() == 0);
                assert(res@.len() == prev.len());
            }
            assert(lhs.len() == rhs.len());
            assert forall|k: int| 0 <= k < lhs.len() implies lhs[k] == rhs[k] by {
                if k < prev.len() {
                    assert(lhs[k] == prev[k]);
                    assert(rhs[k] == prev[k]);
                } else {
                    assert(res@.last()@ == (name_at(dv, pv, i as nat), value_at(dv, pv, i as nat)));
                }
            };
            assert(lhs =~= rhs);
            cur = i as int + 1;
        }
        t = t + 1;
    }
    proof {
        assert forall|k: nat| cur <= k < index_bound() implies name_at(dv, pv, k).len() == 0 by {
            if name_at(dv, pv, k).len() > 0 {
                assert(idxs@.contains(k as u64));
                let u = choose|u: int| 0 <= u < idxs@.len() && idxs@[u] == k as u64;
                assert((idxs@[u] as int) < cur);
            }
        };
        lemma_entries_empty(dv, pv, cur, index_bound());
        lemma_entries_split(dv, pv, 1, cur, index_bound());
        assert(indexed_entries_between(dv, pv, 1, index_bound()) =~= indexed_entries_between(
            dv,
            pv,
            1,
            cur,
        ));
    }
    Some(res)
}

/// The position of the first pair of `m` whose key is `k`, or `-1`.
pub open spec fn key_index(m: Seq<(Seq<char>, Seq<char>)>, k: Seq<char>) -> int
    decreases m.len(),
{
    if m.len() == 0 {
        -1
    } else if m[0].0 == k {
        0
    } else {
        let r = key_index(m.skip(1), k);
        if r < 0 {
            -1
        } else {
            r + 1
        }
    }
}

/// `m` with the binding `k -> v` added: the first pair keyed `k` is
/// replaced, or the binding is appended when `k` is absent.
pub open spec fn upsert(
    m: Seq<(Seq<char>, Seq<char>)>,
    k: Seq<char>,
    v: Seq<char>,
) -> Seq<(Seq<char>, Seq<char>)> {
    if key_index(m, k) < 0 {
        m.push((k, v))
    } else {
        m.update(key_index(m, k), (k, v))
    }
}

/// Collapses a list of `(name, value)` entries into a mapping: one binding
/// per distinct name, a later entry overwriting an earlier one of the same
/// name, names in order of first occurrence.
pub open spec fn collapse(entries: Seq<(Seq<char>, Seq<char>)>) -> Seq<(Seq<char>, Seq<char>)>
    decreases entries.len(),
{
    if entries.len() == 0 {
        Seq::empty()
    } else {
        upsert(collapse(entries.drop_last()), entries.last().0, entries.last().1)
    }
}

proof fn lemma_key_index_found(m: Seq<(Seq<char>, Seq<char>)>, k: Seq<char>, f: int)
    requires
        0 <= f < m.len(),
        m[f].0 == k,
        forall|q: int| 0 <= q < f ==> (#[trigger] m[q]).0 != k,
    ensures
        key_index(m, k) == f,
    decreases f,
{
    if f > 0 {
        assert(m[0].0 != k);
        lemma_key_index_found(m.skip(1), k, f - 1);
    }
}

proof fn lemma_key_index_missing(m: Seq<(Seq<char>, Seq<char>)>, k: Seq<char>)
    requires
        forall|q: int| 0 <= q < m.len() ==> (#[trigger] m[q]).0 != k,
    ensures
        key_index(m, k) < 0,
    decreases m.len(),
{
    if m.len() > 0 {
        lemma_key_index_missing(m.skip(1), k);
    }
}

/// Collapses extracted entries into a name-to-value mapping, a later entry
/// winning over an earlier one of the same name.  `None` collapses to the
/// empty mapping.
pub fn get_attrbutes_hashmap(attributes: Option<Vec<ParamValues>>) -> (r: Vec<(String, String)>)
    ensures
        attributes is None ==> r@.len() == 0,
        attributes matches Some(attrs) ==> r.deep_view() == collapse(params_view(attrs@)),
{
    let mut map: Vec<(String, String)> = Vec::new();
    let attrs = match attributes {
        None => {
            return map;
        },
        Some(attrs) => attrs,
    };
    let mut j: usize = 0;
    while j < attrs.len()
        invariant
            0 <= j <= attrs@.len(),
            map.deep_view() == collapse(params_view(attrs@.take(j as int))),
        decreases attrs@.len() - j,
    {
        let ghost mdv = map.deep_view();
        proof {
            assert forall|q: int| 0 <= q < mdv.len() implies mdv[q] == (
                #[trigger] map@[q].0@,
                map@[q].1@,
            ) by {
                assert(mdv[q] == map@[q].deep_view());
            };
        }
        let name = attrs[j].name.clone();
        let value = attrs[j].value.clone();
        let mut f: usize = 0;
        while f < map.len() && !str_eq(map[f].0.as_str(), name.as_str())
            invariant
                0 <= f <= map@.len(),
                mdv == map.deep_view(),
                mdv.len() == map@.len(),
                forall|q: int| 0 <= q < mdv.len() ==> mdv[q] == (#[trigger] map@[q].0@, map@[q].1@),
                forall|q: int| 0 <= q < f ==> (#[trigger] mdv[q]).0 != name@,
            decreases map@.len() - f,
        {
            f = f + 1;
        }
        if f < map.len() {
            proof {
                lemma_key_index_found(mdv, name@, f as int);
            }
            map[f] = (name, value);
        } else {
            proof {
                lemma_key_index_missing(mdv, name@);
            }
            map.push((name, value));
        }
        proof {
            let pv_all = params_view(attrs@.take(j + 1));
            assert(pv_all.drop_last() =~= params_view(attrs@.take(j as int)));
            assert(pv_all.last() == attrs@[j as int]@);
            assert(map.deep_view() =~= upsert(mdv, attrs@[j as int]@.0, attrs@[j as int]@.1));
        }
        j = j + 1;
    }
    proof {
        assert(attrs@.take(attrs@.len() as int) =~= attrs@);
    }
    map
}

/// The value of the last pair of `pairs` whose key is exactly `key`, the
/// way a flattened form field mapping reads a plain field.
pub open spec fn form_get(pairs: Seq<(Seq<char>, Seq<char>)>, key: Seq<char>) -> Option<Seq<char>>
    decreases pairs.len(),
{
    if pairs.len() == 0 {
        None
    } else if pairs.last().0 == key {
        Some(pairs.last().1)
    } else {
        form_get(pairs.drop_last(), key)
    }
}

/// Reads the plain field `key` from the decoded pairs.
pub fn form_get_exec(pairs: &Vec<(String, String)>, key: &str) -> (r: Option<String>)
    ensures
        r is None ==> form_get(pairs.deep_view(), key@) is None,
        r matches Some(v) ==> form_get(pairs.deep_view(), key@) == Some(v@),
{
    let ghost dv = pairs.deep_view();
    proof {
        assert forall|q: int| 0 <= q < dv.len() implies dv[q] == (
            #[trigger] pairs@[q].0@,
            pairs@[q].1@,
        ) by {
            assert(dv[q] == pairs@[q].deep_view());
        };
    }
    let mut res: Option<String> = None;
    let mut j: usize = 0;
    while j < pairs.len()
        invariant
            0 <= j <= pairs@.len(),
            dv == pairs.deep_view(),
            dv.len() == pairs@.len(),
            forall|q: int| 0 <= q < dv.len() ==> dv[q] == (#[trigger] pairs@[q].0@, pairs@[q].1@),
            res is None ==> form_get(dv.take(j as int), key@) is None,
            res matches Some(v) ==> form_get(dv.take(j as int), key@) == Some(v@),
        decreases pairs@.len() - j,
    {
        proof {
            assert(dv.take(j + 1).drop_last() =~= dv.take(j as int));
            assert(dv.take(j + 1).last() == dv[j as int]);
        }
        if str_eq(pairs[j].0.as_str(), key) {
            res = Some(pairs[j].1.clone());
        }
        j = j + 1;
    }
    proof {
        assert(dv.take(dv.len() as int) =~= dv);
    }
    res
}

/// Whether every character of `s` is a decimal digit.
pub open spec fn all_digits(s: Seq<char>) -> bool {
    forall|j: int| 0 <= j < s.len() ==> is_digit(#[trigger] s[j])
}

/// A signed decimal literal with its optional leading sign removed.
pub open spec fn signless(s: Seq<char>) -> Seq<char> {
    if s.len() > 0 && (s[0] == '-' || s[0] == '+') {
        s.skip(1)
    } else {
        s
    }
}

/// The integer a text denotes: an optional sign, then decimal digits.
pub open spec fn parse_int_spec(s: Seq<char>) -> Option<int> {
    if s.len() == 0 || signless(s).len() == 0 || !all_digits(signless(s)) {
        None
    } else if s[0] == '-' {
        Some(-1 * digits_val(signless(s)))
    } else {
        Some(digits_val(signless(s)) as int)
    }
}

/// The `i32` a text denotes, if it denotes one in range.
pub open spec fn parse_i32_spec(s: Seq<char>) -> Option<i32> {
    match parse_int_spec(s) {
        None => None,
        Some(v) => if i32::MIN <= v <= i32::MAX {
            Some(v as i32)
        } else {
            None
        },
    }
}

/// Parses a decimal `i32`, the shape `str::parse::<i32>` accepts.
pub fn parse_i32(s: &str) -> (r: Option<i32>)
    ensures
        r == parse_i32_spec(s@),
{
    let n = s.unicode_len();
    if n == 0 {
        return None;
    }
    let c0 = s.get_char(0);
    let negative = c0 == '-';
    let start: usize = if c0 == '-' || c0 == '+' {
        1
    } else {
        0
    };
    let ghost ds = signless(s@);
    assert(ds =~= s@.skip(start as int));
    if n == start {
        return None;
    }
    let mut j: usize = start;
    let mut mag: u64 = 0;
    while j < n
        invariant
            start <= j <= n,
            n == s@.len(),
            start <= 1,
            1 <= n - start,
            negative == (s@[0] == '-'),
            (start == 1) == (s@[0] == '-' || s@[0] == '+'),
            ds == signless(s@),
            ds == s@.skip(start as int),
            ds.len() == n - start,
            forall|q: int| 0 <= q < j - start ==> is_digit(ds[q]),
            mag as nat == digits_val(ds.take(j - start)),
        decreases n - j,
    {
        let c = s.get_char(j);
        if !is_digit_char(c) {
            assert(!is_digit(ds[j - start]));
            assert(!all_digits(signless(s@)));
            return None;
        }
        let d = (c as u32 - 48) as u64;
        assert(ds[j - start] == s@[j as int]);
        proof {
            lemma_digits_val_step(ds, j - start);
        }
        if mag > (u64::MAX - d) / 10 {
            proof {
                let q = j - start;
                assert(digits_val(ds.take(q + 1)) == mag as nat * 10 + d as nat);
                assert(mag as nat * 10 + d as nat > u64::MAX) by {
                    assert(mag >= (u64::MAX - d) / 10 + 1);
                    assert((((u64::MAX - d) / 10 + 1) as nat) * 10 + d as nat > u64::MAX)
                        by (nonlinear_arith);
                    assert(mag as nat * 10 >= (((u64::MAX - d) / 10 + 1) as nat) * 10)
                        by (nonlinear_arith)
                        requires
                            mag as nat >= ((u64::MAX - d) / 10 + 1) as nat,
                    ;
                };
                if parse_int_spec(s@) is Some {
                    lemma_digits_val_monotone(ds, q + 1, ds.len() as int);
                    assert(ds.take(ds.len() as int) =~= ds);
                }
            }
            return None;
        }
        mag = mag * 10 + d;
        j = j + 1;
    }
    proof {
        assert(ds.take(ds.len() as int) =~= ds);
        assert(all_digits(ds));
    }
    if negative {
        if mag > 0x80000000u64 {
            return None;
        }
        if mag == 0x80000000u64 {
            return Some(i32::MIN);
        }
        Some(-(mag as i32))
    } else {
        if mag > 0x7fffffffu64 {
            return None;
        }
        Some(mag as i32)
    }
}

/// The lowercase hexadecimal MD5 digest of a text, a pure function of the
/// text, left uninterpreted.
pub uninterp spec fn md5_hex_of(s: Seq<char>) -> Seq<char>;

/// Relies on `md5::compute`: the digest depends on the input bytes alone,
/// and its `LowerHex` rendering writes exactly two hexadecimal digits per
/// digest byte, 32 characters in all.
#[verifier::external_body]
pub fn compute_md5(input: &str) -> (r: String)
    ensures
        r@ == md5_hex_of(input@),
        r@.len() == 32,
{
    let digest = md5::compute(input);
    format!("{:x}", digest)
}

/// Relies on `uuid::Uuid::new_v4` and the `Display` impl of `Uuid`: a fresh
/// random version-4 UUID rendered in the 36-character hyphenated form.
/// The value is random, so nothing but its shape can be promised.
#[verifier::external_body]
pub fn generate_random_uuid4() -> (r: String)
    ensures
        r@.len() == 36,
{
    let uuid = uuid::Uuid::new_v4();
    uuid.to_string()
}

/// What a URL-encoded form body decodes to: its `key=value` pairs in order,
/// or nothing when the body is malformed.  A pure function of the bytes,
/// left uninterpreted.
pub uninterp spec fn form_decode(bytes: Seq<u8>) -> Option<Seq<(Seq<char>, Seq<char>)>>;

/// Relies on `serde_urlencoded::from_bytes` deserializing into a list of
/// string pairs: it yields every `key=value` pair of the body in order,
/// percent-decoded, and fails exactly on bodies that are not well-formed
/// URL-encoded forms.
#[verifier::external_body]
pub fn decode_form(bytes: &[u8]) -> (r: Option<Vec<(String, String)>>)
    ensures
        r is Some <==> form_decode(bytes@) is Some,
        r matches Some(pairs) ==> Some(pairs.deep_view()) == form_decode(bytes@),
{
    match serde_urlencoded::from_bytes::<Vec<(String, String)>>(bytes) {
        Ok(pairs) => Some(pairs),
        Err(_) => None,
    }
}

} // verus!
