use vstd::prelude::*;
use vstd::slice::slice_subrange;
use vstd::slice::slice_to_vec;

use crate::errors::UnknownAction;
use crate::log::bytes_eq;
use crate::log::find_from;
use crate::log::lemma_find_byte_is;
use crate::log::spec_get;
use crate::log::spec_lines;
use crate::log::spec_lookup;
use crate::log::spec_parse_line;
use crate::log::spec_record;
use crate::log::NEWLINE;
use crate::log::SPACE;

verus! {

/// The two operations the store understands.
#[derive(Debug, PartialEq, Eq, Structural)]
pub enum KVAction {
    SET,
    GET,
}

impl KVAction {
    /// Recognises the exact, case-sensitive action tokens `"get"` and `"set"`;
    /// every other token is an `UnknownAction` error.
    pub fn from_str(s: &str) -> (r: Result<Self, UnknownAction>)
        ensures
            s@ == "get"@ ==> r == Ok::<KVAction, UnknownAction>(KVAction::GET),
            s@ == "set"@ ==> r == Ok::<KVAction, UnknownAction>(KVAction::SET),
            s@ != "get"@ && s@ != "set"@ ==> (r matches Err(e) && e.0@ == s@),
    {
        proof {
            reveal_strlit("get");
            reveal_strlit("set");
            assert("get"@[0] == 'g' && "set"@[0] == 's');
            assert("get"@ != "set"@);
        }
        if s.to_owned() == String::from_str("get") {
            Ok(Self::GET)
        } else if s.to_owned() == String::from_str("set") {
            Ok(Self::SET)
        } else {
            Err(UnknownAction(s))
        }
    }
}

/// A handle on the store: nothing but the name of the log file.
///
/// The handle keeps no open file, no cache and no index; the named file is
/// the sole source of truth, read or appended afresh on every operation.
#[derive(Debug, PartialEq)]
pub struct KVStorage<'a> {
    pub filename: &'a str,
}

impl<'a> KVStorage<'a> {
    /// Binds a handle to a log file name. The file itself is created lazily,
    /// on the first append.
    pub fn new(filename: &'a str) -> (r: Self)
        ensures
            r.filename == filename,
    {
        Self { filename }
    }
}

/// The write path of `set`, short of the file itself: the one line that a
/// `set(key, value)` appends to the log, encoded exactly as
/// `"<key><single-space><value>\n"`.
pub fn encode_record(key: &[u8], value: &[u8]) -> (r: Vec<u8>)
    ensures
        r@ == spec_record(key@, value@),
{
    let mut r: Vec<u8> = slice_to_vec(key);
    r.push(SPACE);
    proof {
        assert(r@ =~= key@ + seq![SPACE] + value@.subrange(0, 0));
    }
    let mut i: usize = 0;
    while i < value.len()
        invariant
            i <= value@.len(),
            r@ == key@ + seq![SPACE] + value@.subrange(0, i as int),
        decreases value@.len() - i,
    {
        r.push(value[i]);
        i = i + 1;
        proof {
            assert(r@ =~= key@ + seq![SPACE] + value@.subrange(0, i as int));
        }
    }
    proof {
        assert(value@.subrange(0, value@.len() as int) =~= value@);
    }
    r.push(NEWLINE);
    proof {
        assert(r@ =~= spec_record(key@, value@));
    }
    r
}

/// The read path of `get`, short of the file itself: a single forward scan of
/// the full log contents that keeps the value of the last well-formed line
/// whose key equals `key`. Lines without a space are malformed and skipped.
pub fn get_from_log(log: &[u8], key: &[u8]) -> (r: Option<Vec<u8>>)
    ensures
        r.deep_view() == spec_get(log@, key@),
{
    let ghost len = log@.len() as int;
    let mut result: Option<Vec<u8>> = None;
    let mut pos: usize = 0;
    let ghost mut done: Seq<Seq<u8>> = Seq::empty();
    proof {
        assert(log@.subrange(0, len) =~= log@);
        assert(spec_lines(log@) =~~= done + spec_lines(log@.subrange(0, len)));
    }
    while pos < log.len()
        invariant
            len == log@.len() as int,
            pos <= log@.len(),
            spec_lines(log@) == done + spec_lines(log@.subrange(pos as int, log@.len() as int)),
            result.deep_view() == spec_lookup(done, key@),
        decreases log@.len() - pos,
    {
        let j = find_from(log, pos, log.len(), NEWLINE);
        let sp = find_from(log, pos, j, SPACE);
        let ghost suffix = log@.subrange(pos as int, len);
        let ghost line = log@.subrange(pos as int, j as int);
        proof {
            // The scan found the first newline of the suffix and the first
            // space of its first line.
            assert(line =~= suffix.subrange(0, j - pos));
            lemma_find_byte_is(suffix, NEWLINE, j - pos);
            lemma_find_byte_is(line, SPACE, sp - pos);
            if j < log@.len() {
                assert(suffix.subrange(j - pos + 1, suffix.len() as int) =~= log@.subrange(
                    j + 1,
                    len,
                ));
                assert(spec_lines(suffix) =~~= seq![line] + spec_lines(
                    log@.subrange(j + 1, len),
                ));
            } else {
                assert(line =~= suffix);
                assert(spec_lines(suffix) =~~= seq![line] + Seq::<Seq<u8>>::empty());
            }
        }
        if sp < j {
            proof {
                assert(spec_parse_line(line) == Some(
                    (line.subrange(0, sp - pos), line.subrange(sp - pos + 1, line.len() as int)),
                ));
                assert(line.subrange(0, sp - pos) =~= log@.subrange(pos as int, sp as int));
                assert(line.subrange(sp - pos + 1, line.len() as int) =~= log@.subrange(
                    sp + 1,
                    j as int,
                ));
            }
            if bytes_eq(slice_subrange(log, pos, sp), key) {
                let v = slice_to_vec(slice_subrange(log, sp + 1, j));
                proof {
                    assert(v.deep_view() =~= v@);
                }
                result = Some(v);
            }
        }
        proof {
            let ghost rest = if j < log@.len() {
                spec_lines(log@.subrange(j + 1, len))
            } else {
                Seq::<Seq<u8>>::empty()
            };
            assert(spec_lines(suffix) =~~= seq![line] + rest);
            assert(done + (seq![line] + rest) =~~= done.push(line) + rest);
            let ghost done2 = done.push(line);
            assert(done2.drop_last() =~= done);
            assert(done2.last() == line);
            done = done2;
            assert(result.deep_view() == spec_lookup(done, key@));
        }
        pos = if j < log.len() {
            j + 1
        } else {
            j
        };
        proof {
            if j == log@.len() {
                assert(log@.subrange(pos as int, len) =~= Seq::<u8>::empty());
            }
            assert(spec_lines(log@) == done + spec_lines(log@.subrange(pos as int, len)));
        }
    }
    proof {
        assert(log@.subrange(pos as int, len) =~= Seq::<u8>::empty());
        assert(done + spec_lines(Seq::<u8>::empty()) =~~= done);
    }
    result
}

} // verus!
