//! The on-disk log format: a UTF-8 text file, one record per line, each line
//! `"<key><single-space><value>\n"`. This module gives the format its
//! mathematical model over byte sequences: how a byte string splits into
//! lines, how a line splits into a key and a value at its first space, and
//! which value a last-write-wins scan of the whole log yields.

use vstd::prelude::*;

verus! {

/// The byte that separates the key of a record from its value.
pub const SPACE: u8 = 32;

/// The byte that terminates every record.
pub const NEWLINE: u8 = 10;

/// Index of the first occurrence of `b` in `s`, or `s.len()` if `b` does not
/// occur.
pub open spec fn find_byte(s: Seq<u8>, b: u8) -> nat
    decreases s.len(),
{
    if s.len() == 0 {
        0
    } else if s[0] == b {
        0
    } else {
        1 + find_byte(s.drop_first(), b)
    }
}

/// `find_byte` names the first occurrence: it is in range exactly when `b`
/// occurs, it points at `b`, and nothing before it is `b`.
pub proof fn lemma_find_byte(s: Seq<u8>, b: u8)
    ensures
        find_byte(s, b) <= s.len(),
        find_byte(s, b) < s.len() ==> s[find_byte(s, b) as int] == b,
        forall|j: int| 0 <= j < find_byte(s, b) ==> s[j] != b,
    decreases s.len(),
{
    if s.len() == 0 {
    } else if s[0] == b {
    } else {
        lemma_find_byte(s.drop_first(), b);
        assert forall|j: int| 0 <= j < find_byte(s, b) implies s[j] != b by {
            if j > 0 {
                assert(s.drop_first()[j - 1] == s[j]);
            }
        }
    }
}

/// Any index with the three properties of `lemma_find_byte` is `find_byte`.
pub proof fn lemma_find_byte_is(s: Seq<u8>, b: u8, i: int)
    requires
        0 <= i <= s.len(),
        i < s.len() ==> s[i] == b,
        forall|j: int| 0 <= j < i ==> s[j] != b,
    ensures
        find_byte(s, b) == i,
    decreases s.len(),
{
    if s.len() == 0 {
    } else if s[0] == b {
        assert(i == 0);
    } else {
        assert(forall|j: int| 0 <= j < i - 1 ==> s.drop_first()[j] == s[j + 1]);
        assert(i - 1 < s.drop_first().len() ==> s.drop_first()[i - 1] == s[i]);
        lemma_find_byte_is(s.drop_first(), b, i - 1);
    }
}

/// The lines of a byte string: the segments between newline bytes. A final
/// segment without a terminating newline still counts as a line; the empty
/// string has no lines.
pub open spec fn spec_lines(s: Seq<u8>) -> Seq<Seq<u8>>
    decreases s.len(),
{
    if s.len() == 0 {
        Seq::empty()
    } else {
        let i = find_byte(s, NEWLINE) as int;
        if i < s.len() {
            seq![s.subrange(0, i)] + spec_lines(s.subrange(i + 1, s.len() as int))
        } else {
            seq![s]
        }
    }
}

/// A line splits at its first space into a key and a value; a line without a
/// space is malformed and yields no record.
pub open spec fn spec_parse_line(line: Seq<u8>) -> Option<(Seq<u8>, Seq<u8>)> {
    let i = find_byte(line, SPACE) as int;
    if i < line.len() {
        Some((line.subrange(0, i), line.subrange(i + 1, line.len() as int)))
    } else {
        None
    }
}

/// Last-write-wins resolution over parsed lines: the value of the last line
/// whose key equals `key`; malformed lines are skipped.
pub open spec fn spec_lookup(lines: Seq<Seq<u8>>, key: Seq<u8>) -> Option<Seq<u8>>
    decreases lines.len(),
{
    if lines.len() == 0 {
        None
    } else {
        match spec_parse_line(lines.last()) {
            Some(kv) => if kv.0 == key {
                Some(kv.1)
            } else {
                spec_lookup(lines.drop_last(), key)
            },
            None => spec_lookup(lines.drop_last(), key),
        }
    }
}

/// What `get` computes from the full contents of the log file.
pub open spec fn spec_get(log: Seq<u8>, key: Seq<u8>) -> Option<Seq<u8>> {
    spec_lookup(spec_lines(log), key)
}

/// The encoding of one record: the key, a single space, the value, a newline.
pub open spec fn spec_record(key: Seq<u8>, value: Seq<u8>) -> Seq<u8> {
    key + seq![SPACE] + value + seq![NEWLINE]
}

/// A key round-trips through the format only if it holds neither a space
/// (the key/value separator) nor a newline (the record terminator).
pub open spec fn valid_key(k: Seq<u8>) -> bool {
    forall|i: int| 0 <= i < k.len() ==> k[i] != SPACE && k[i] != NEWLINE
}

/// A value round-trips through the format only if it holds no newline;
/// embedded spaces are fine, since a line splits at its first space only.
pub open spec fn valid_value(v: Seq<u8>) -> bool {
    forall|i: int| 0 <= i < v.len() ==> v[i] != NEWLINE
}

/// Every log produced by appends of whole records is newline-terminated.
pub open spec fn is_terminated(log: Seq<u8>) -> bool {
    log.len() == 0 || log.last() == NEWLINE
}

/// First index in `v[from..until]` holding `b`, or `until` if there is none.
pub(crate) fn find_from(v: &[u8], from: usize, until: usize, b: u8) -> (r: usize)
    requires
        from <= until <= v@.len(),
    ensures
        from <= r <= until,
        r < until ==> v@[r as int] == b,
        forall|j: int| from <= j < r ==> v@[j] != b,
{
    let mut i: usize = from;
    while i < until
        invariant
            from <= i <= until <= v@.len(),
            forall|j: int| from <= j < i ==> v@[j] != b,
        decreases until - i,
    {
        if v[i] == b {
            return i;
        }
        i = i + 1;
    }
    i
}

/// Byte-for-byte equality of two byte strings.
pub(crate) fn bytes_eq(a: &[u8], b: &[u8]) -> (r: bool)
    ensures
        r == (a@ == b@),
{
    if a.len() != b.len() {
        return false;
    }
    let mut i: usize = 0;
    while i < a.len()
        invariant
            a@.len() == b@.len(),
            i <= a@.len(),
            forall|j: int| 0 <= j < i ==> a@[j] == b@[j],
        decreases a@.len() - i,
    {
        if a[i] != b[i] {
            return false;
        }
        i = i + 1;
    }
    proof {
        assert(a@ =~= b@);
    }
    true
}

} // verus!
