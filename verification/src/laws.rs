//! The guarantees of the store, proved once and for all over the log model:
//! what a lookup returns after a record is appended, that the last write to a
//! key wins, that keys do not disturb one another, that an absent key yields
//! nothing, and that the log only ever grows, one record per append.

use vstd::prelude::*;

use crate::log::find_byte;
use crate::log::lemma_find_byte;
use crate::log::lemma_find_byte_is;
use crate::log::is_terminated;
use crate::log::spec_get;
use crate::log::spec_lines;
use crate::log::spec_lookup;
use crate::log::spec_parse_line;
use crate::log::spec_record;
use crate::log::valid_key;
use crate::log::valid_value;
use crate::log::NEWLINE;
use crate::log::SPACE;

verus! {

/// Appending to a newline-terminated log never touches the existing lines:
/// the lines of the whole are the lines of the parts.
pub proof fn lemma_lines_append(s: Seq<u8>, t: Seq<u8>)
    requires
        is_terminated(s),
    ensures
        spec_lines(s + t) == spec_lines(s) + spec_lines(t),
    decreases s.len(),
{
    if s.len() == 0 {
        assert(s + t =~= t);
        assert(spec_lines(s) + spec_lines(t) =~~= spec_lines(t));
    } else {
        lemma_find_byte(s, NEWLINE);
        let i = find_byte(s, NEWLINE) as int;
        assert(i < s.len()) by {
            assert(s[s.len() - 1] == NEWLINE);
        }
        lemma_find_byte_is(s + t, NEWLINE, i);
        let s2 = s.subrange(i + 1, s.len() as int);
        assert((s + t).subrange(0, i) =~= s.subrange(0, i));
        assert((s + t).subrange(i + 1, (s + t).len() as int) =~= s2 + t);
        assert(is_terminated(s2)) by {
            if s2.len() > 0 {
                assert(s2.last() == s[s.len() - 1]);
            }
        }
        lemma_lines_append(s2, t);
        assert(spec_lines(s + t) =~~= spec_lines(s) + spec_lines(t));
    }
}

/// One encoded record is one well-formed line: it parses back to exactly the
/// key and the value it was made from.
pub proof fn lemma_record_lines(k: Seq<u8>, v: Seq<u8>)
    requires
        valid_key(k),
        valid_value(v),
    ensures
        spec_lines(spec_record(k, v)) == seq![k + seq![SPACE] + v],
        spec_parse_line(k + seq![SPACE] + v) == Some((k, v)),
{
    let rec = spec_record(k, v);
    let line = k + seq![SPACE] + v;
    assert(rec.len() == k.len() + v.len() + 2);
    assert forall|j: int| 0 <= j < rec.len() - 1 implies rec[j] != NEWLINE by {
        if j < k.len() {
            assert(rec[j] == k[j]);
        } else if j == k.len() {
            assert(rec[j] == SPACE);
        } else {
            assert(rec[j] == v[j - k.len() - 1]);
        }
    }
    assert(rec[rec.len() - 1] == NEWLINE);
    lemma_find_byte_is(rec, NEWLINE, rec.len() - 1);
    assert(rec.subrange(0, rec.len() - 1) =~= line);
    assert(rec.subrange(rec.len() as int, rec.len() as int) =~= Seq::<u8>::empty());
    assert(spec_lines(Seq::<u8>::empty()) =~~= Seq::<Seq<u8>>::empty());
    assert(spec_lines(rec) =~~= seq![line]);
    assert forall|j: int| 0 <= j < k.len() implies line[j] != SPACE by {
        assert(line[j] == k[j]);
    }
    assert(line[k.len() as int] == SPACE);
    lemma_find_byte_is(line, SPACE, k.len() as int);
    assert(line.subrange(0, k.len() as int) =~= k);
    assert(line.subrange(k.len() as int + 1, line.len() as int) =~= v);
}

/// A log stays newline-terminated when a record is appended to it.
pub proof fn lemma_append_record_terminated(log: Seq<u8>, k: Seq<u8>, v: Seq<u8>)
    ensures
        is_terminated(log + spec_record(k, v)),
{
    let rec = spec_record(k, v);
    assert(rec[rec.len() - 1] == NEWLINE);
    assert((log + rec).last() == rec[rec.len() - 1]);
}

/// Round trip: on any newline-terminated log, appending the record for
/// `(k, v)` and then looking `k` up yields exactly `v`.
pub proof fn lemma_set_then_get(log: Seq<u8>, k: Seq<u8>, v: Seq<u8>)
    requires
        is_terminated(log),
        valid_key(k),
        valid_value(v),
    ensures
        spec_get(log + spec_record(k, v), k) == Some(v),
{
    lemma_lines_append(log, spec_record(k, v));
    lemma_record_lines(k, v);
    let line = k + seq![SPACE] + v;
    let lines = spec_lines(log) + seq![line];
    assert(lines.last() == line);
}

/// Frame rule: appending a record for one key leaves the lookup of every
/// other key exactly as it was.
pub proof fn lemma_set_preserves_other(log: Seq<u8>, k: Seq<u8>, v: Seq<u8>, other: Seq<u8>)
    requires
        is_terminated(log),
        valid_key(k),
        valid_value(v),
        other != k,
    ensures
        spec_get(log + spec_record(k, v), other) == spec_get(log, other),
{
    lemma_lines_append(log, spec_record(k, v));
    lemma_record_lines(k, v);
    let line = k + seq![SPACE] + v;
    let lines = spec_lines(log) + seq![line];
    assert(lines.last() == line);
    assert(lines.drop_last() =~= spec_lines(log));
}

/// Independence: two `set`s on distinct keys each leave their own value in
/// place; neither disturbs the other's lookup.
pub proof fn lemma_set_independence(
    log: Seq<u8>,
    k1: Seq<u8>,
    v1: Seq<u8>,
    k2: Seq<u8>,
    v2: Seq<u8>,
)
    requires
        is_terminated(log),
        valid_key(k1),
        valid_value(v1),
        valid_key(k2),
        valid_value(v2),
        k1 != k2,
    ensures
        spec_get(log + spec_record(k1, v1) + spec_record(k2, v2), k1) == Some(v1),
        spec_get(log + spec_record(k1, v1) + spec_record(k2, v2), k2) == Some(v2),
{
    lemma_set_then_get(log, k1, v1);
    lemma_append_record_terminated(log, k1, v1);
    lemma_set_then_get(log + spec_record(k1, v1), k2, v2);
    lemma_set_preserves_other(log + spec_record(k1, v1), k2, v2, k1);
}

/// The log after `set(k, v1)`, `set(k, v2)`, ..., in order: each call appends
/// one record for `k`.
pub open spec fn spec_append_all(log: Seq<u8>, k: Seq<u8>, vs: Seq<Seq<u8>>) -> Seq<u8>
    decreases vs.len(),
{
    if vs.len() == 0 {
        log
    } else {
        spec_append_all(log, k, vs.drop_last()) + spec_record(k, vs.last())
    }
}

/// A log built from a newline-terminated one by appending whole records is
/// itself newline-terminated.
pub proof fn lemma_append_all_terminated(log: Seq<u8>, k: Seq<u8>, vs: Seq<Seq<u8>>)
    requires
        is_terminated(log),
    ensures
        is_terminated(spec_append_all(log, k, vs)),
    decreases vs.len(),
{
    if vs.len() > 0 {
        lemma_append_record_terminated(spec_append_all(log, k, vs.drop_last()), k, vs.last());
    }
}

/// Last write wins: after any non-empty run of `set`s on one key, the lookup
/// of that key yields the value of the final `set`, whatever stood in the log
/// before.
pub proof fn lemma_last_write_wins(log: Seq<u8>, k: Seq<u8>, vs: Seq<Seq<u8>>)
    requires
        is_terminated(log),
        valid_key(k),
        vs.len() >= 1,
        forall|i: int| 0 <= i < vs.len() ==> valid_value(#[trigger] vs[i]),
    ensures
        spec_get(spec_append_all(log, k, vs), k) == Some(vs.last()),
{
    lemma_append_all_terminated(log, k, vs.drop_last());
    lemma_set_then_get(spec_append_all(log, k, vs.drop_last()), k, vs.last());
}

/// A key that no line of the log carries is absent: the lookup yields
/// nothing. An empty or never-created log is the special case with no lines
/// at all.
pub open spec fn spec_has_key(lines: Seq<Seq<u8>>, key: Seq<u8>) -> bool {
    exists|i: int|
        0 <= i < lines.len() && ((#[trigger] spec_parse_line(lines[i])) matches Some(kv) && kv.0
            == key)
}

/// A lookup finds a value exactly when some line of the log carries the key.
pub proof fn lemma_lookup_some_iff_has_key(lines: Seq<Seq<u8>>, key: Seq<u8>)
    ensures
        spec_lookup(lines, key) is Some <==> spec_has_key(lines, key),
    decreases lines.len(),
{
    if lines.len() == 0 {
    } else {
        let rest = lines.drop_last();
        lemma_lookup_some_iff_has_key(rest, key);
        assert(forall|i: int| 0 <= i < rest.len() ==> rest[i] == lines[i]);
        let last_matches = spec_parse_line(lines.last()) matches Some(kv) && kv.0 == key;
        if last_matches {
            assert(spec_parse_line(lines[lines.len() - 1]) matches Some(kv) && kv.0 == key);
            assert(spec_has_key(lines, key));
        } else {
            if spec_has_key(lines, key) {
                let i = choose|i: int|
                    0 <= i < lines.len() && ((#[trigger] spec_parse_line(lines[i])) matches Some(
                        kv,
                    ) && kv.0 == key);
                assert(i < lines.len() - 1);
                assert(spec_parse_line(rest[i]) matches Some(kv) && kv.0 == key);
                assert(spec_has_key(rest, key));
            }
            if spec_has_key(rest, key) {
                let i = choose|i: int|
                    0 <= i < rest.len() && ((#[trigger] spec_parse_line(rest[i])) matches Some(
                        kv,
                    ) && kv.0 == key);
                assert(spec_parse_line(lines[i]) matches Some(kv) && kv.0 == key);
                assert(spec_has_key(lines, key));
            }
        }
    }
}

/// Absence: looking up a key that no line of the log carries yields nothing.
pub proof fn lemma_get_absent(log: Seq<u8>, k: Seq<u8>)
    requires
        !spec_has_key(spec_lines(log), k),
    ensures
        spec_get(log, k) is None,
{
    lemma_lookup_some_iff_has_key(spec_lines(log), k);
}

/// Absence, empty case: a log that was never written — the file absent or
/// empty — holds no key at all.
pub proof fn lemma_get_from_empty(k: Seq<u8>)
    ensures
        spec_get(Seq::empty(), k) is None,
{
}

/// Append-only growth, one step: appending the record for `(k, v)` adds
/// exactly one line at the end and rewrites none of the existing ones.
pub proof fn lemma_append_grows(log: Seq<u8>, k: Seq<u8>, v: Seq<u8>)
    requires
        is_terminated(log),
        valid_key(k),
        valid_value(v),
    ensures
        spec_lines(log + spec_record(k, v)) == spec_lines(log).push(k + seq![SPACE] + v),
{
    lemma_lines_append(log, spec_record(k, v));
    lemma_record_lines(k, v);
    assert(spec_lines(log) + seq![k + seq![SPACE] + v] =~~= spec_lines(log).push(
        k + seq![SPACE] + v,
    ));
}

/// Append-only growth, in full: a run of `set`s leaves exactly one new line
/// per call, all existing lines unchanged, even when keys repeat.
pub proof fn lemma_append_all_grows(log: Seq<u8>, k: Seq<u8>, vs: Seq<Seq<u8>>)
    requires
        is_terminated(log),
        valid_key(k),
        forall|i: int| 0 <= i < vs.len() ==> valid_value(#[trigger] vs[i]),
    ensures
        spec_lines(spec_append_all(log, k, vs)).len() == spec_lines(log).len() + vs.len(),
        forall|i: int|
            0 <= i < spec_lines(log).len() ==> spec_lines(spec_append_all(log, k, vs))[i]
                == spec_lines(log)[i],
    decreases vs.len(),
{
    if vs.len() > 0 {
        let prefix = spec_append_all(log, k, vs.drop_last());
        lemma_append_all_grows(log, k, vs.drop_last());
        lemma_append_all_terminated(log, k, vs.drop_last());
        lemma_append_grows(prefix, k, vs.last());
    }
}

} // verus!
