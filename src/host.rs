//! The text protocol of the host process in native execution: the commands
//! the machine sends, and how their answers are read. Only the last line of
//! an answer counts; state and oracle answers put six characters before the
//! hexadecimal payload.
use crate::bytemap::ByteMap;
use crate::merkle::is_prefix;
use crate::merkle_state::starts_with;
use vstd::utf8::{decode_utf8, valid_utf8};
use crate::codec::{hex_decode, hex_decoding, hex_encode, hex_encoding, is_hex_text};
use crate::syntax_tree::{split_on, split_string, string_views};
use crate::text::{
    append_string, decimal, decimal_string, parse_u64, parse_unsigned, push_char, utf8_string,
};
use vstd::prelude::*;

verus! {

/// Whether `c` is Unicode white space, as `char::is_whitespace` has it.
pub open spec fn is_white_space(c: char) -> bool {
    let u = c as u32;
    (0x09 <= u <= 0x0d) || u == 0x20 || u == 0x85 || u == 0xa0 || u == 0x1680 || (0x2000 <= u
        <= 0x200a) || u == 0x2028 || u == 0x2029 || u == 0x202f || u == 0x205f || u == 0x3000
}

/// A text without its leading white space.
pub open spec fn trim_start(s: Seq<char>) -> Seq<char>
    decreases s.len(),
{
    if s.len() > 0 && is_white_space(s[0]) {
        trim_start(s.drop_first())
    } else {
        s
    }
}

/// A text without its trailing white space.
pub open spec fn trim_end(s: Seq<char>) -> Seq<char>
    decreases s.len(),
{
    if s.len() > 0 && is_white_space(s.last()) {
        trim_end(s.drop_last())
    } else {
        s
    }
}

/// A text without its leading and trailing white space.
pub open spec fn trimmed(s: Seq<char>) -> Seq<char> {
    trim_end(trim_start(s))
}

/// Relies on `str::trim`: the text without leading and trailing white
/// space, as `char::is_whitespace` defines it.
#[verifier::external_body]
fn trim_text(s: &str) -> (r: String)
    ensures
        r@ == trimmed(s@),
{
    s.trim().to_string()
}

/// The number of characters before the payload of an answer line.
pub const PAYLOAD_OFFSET: usize = 6;

/// The last line of an answer, once trimmed.
pub open spec fn last_line(output: Seq<char>) -> Seq<char> {
    split_on(trimmed(output), '\n').last()
}

/// The payload of an answer line: what follows its first six characters.
pub open spec fn payload(line: Seq<char>) -> Seq<char> {
    if line.len() <= 6 {
        Seq::empty()
    } else {
        line.subrange(6, line.len() as int)
    }
}

/// The command that asks for the source of the contract at `location`.
pub open spec fn contract_command_spec(location: u64) -> Seq<char> {
    "readSmartContract "@ + decimal(location as nat)
}

/// The command that asks for the committed value at `location`.
pub open spec fn state_command_spec(location: Seq<char>) -> Seq<char> {
    "sync;getFromState "@ + location
}

/// The command that asks an oracle.
pub open spec fn oracle_command_spec(query_type: u64, body: Seq<u8>) -> Seq<char> {
    "queryOracle "@ + decimal(query_type as nat) + seq![' '] + hex_encoding(body)
}

/// The command that asks for the source of the contract at `location`.
pub fn contract_command(location: u64) -> (r: String)
    ensures
        r@ == contract_command_spec(location),
{
    proof {
        reveal_strlit("readSmartContract ");
    }
    let mut r = "readSmartContract ".to_owned();
    append_string(&mut r, &decimal_string(location));
    r
}

/// The command that asks for the committed value at `location`.
pub fn state_command(location: &String) -> (r: String)
    ensures
        r@ == state_command_spec(location@),
{
    proof {
        reveal_strlit("sync;getFromState ");
    }
    let mut r = "sync;getFromState ".to_owned();
    append_string(&mut r, location);
    r
}

/// The command that asks for the length of the chain.
pub fn chain_length_command() -> (r: String)
    ensures
        r@ == "sync;getBlockchainLen"@,
{
    "sync;getBlockchainLen".to_owned()
}

/// The command that asks an oracle.
pub fn oracle_command(query_type: u64, body: &Vec<u8>) -> (r: String)
    ensures
        r@ == oracle_command_spec(query_type, body@),
{
    proof {
        reveal_strlit("queryOracle ");
    }
    let mut r = "queryOracle ".to_owned();
    append_string(&mut r, &decimal_string(query_type));
    push_char(&mut r, ' ');
    append_string(&mut r, &hex_encode(body.as_slice()));
    r
}

/// The last line of an answer, once trimmed.
fn answer_line(output: &str) -> (r: String)
    ensures
        r@ == last_line(output@),
{
    let t = trim_text(output);
    let mut lines = split_string(t.as_str(), '\n');
    proof {
        assert(string_views(lines@).len() == lines@.len());
        assert(split_on(t@, '\n').len() > 0) by {
            lemma_split_nonempty(t@, '\n');
        }
    }
    let last = lines.pop().unwrap();
    proof {
        let sv = split_on(t@, '\n');
        assert(sv.last() == string_views(lines@.push(last)).last());
    }
    last
}

proof fn lemma_split_nonempty(s: Seq<char>, sep: char)
    ensures
        split_on(s, sep).len() > 0,
    decreases s.len(),
{
    if s.len() > 0 {
        lemma_split_nonempty(s.drop_last(), sep);
    }
}

/// The payload of an answer: its last line without the first six
/// characters, read as hexadecimal; `None` where it is no hexadecimal text.
pub fn response_payload(output: &str) -> (r: Option<Vec<u8>>)
    ensures
        is_hex_text(payload(last_line(output@))) ==> r is Some && r->0@ == hex_decoding(
            payload(last_line(output@)),
        ),
        !is_hex_text(payload(last_line(output@))) ==> r is None,
{
    let line = answer_line(output);
    let s = line.as_str();
    let n = s.unicode_len();
    let p = if n <= PAYLOAD_OFFSET {
        String::new()
    } else {
        s.substring_char(PAYLOAD_OFFSET, n).to_owned()
    };
    proof {
        if n <= 6 {
            assert(p@ =~= payload(line@));
        }
    }
    match hex_decode(p.as_str()) {
        Ok(v) => Some(v),
        Err(_) => None,
    }
}

/// The chain length an answer gives on its last line.
pub fn chain_length_response(output: &str) -> (r: Option<u64>)
    ensures
        r is Some <==> parse_unsigned(last_line(output@), u64::MAX as nat) is Some,
        r is Some ==> r->0 as nat == parse_unsigned(last_line(output@), u64::MAX as nat)->0,
{
    let line = answer_line(output);
    parse_u64(line.as_str())
}

/// The contract source an answer gives: the whole answer, trimmed.
pub fn contract_response(output: &str) -> (r: String)
    ensures
        r@ == trimmed(output@),
{
    trim_text(output)
}

/// The log line of a write committed to the node's state: `State change:`
/// inside the contract's namespace `prefix`, `External state change:`
/// outside it, then `location|value` with the value as text.
pub open spec fn node_change_line(prefix: Seq<char>, location: Seq<char>, value: Seq<char>) -> Seq<
    char,
> {
    (if is_prefix(prefix, location) {
        "State change: "@
    } else {
        "External state change: "@
    }) + location + seq!['|'] + value
}

/// The log line of a write committed to the node's state; `None` where the
/// value is no UTF-8 text.
pub fn node_change(prefix: &String, location: &String, contents: Vec<u8>) -> (r: Option<String>)
    ensures
        r is Some <==> valid_utf8(contents@),
        r is Some ==> r->0@ == node_change_line(prefix@, location@, decode_utf8(contents@)),
{
    let value = match utf8_string(contents) {
        Some(v) => v,
        None => {
            return None;
        },
    };
    proof {
        reveal_strlit("State change: ");
        reveal_strlit("External state change: ");
    }
    let mut r = if starts_with(location, prefix) {
        "State change: ".to_owned()
    } else {
        "External state change: ".to_owned()
    };
    append_string(&mut r, location);
    push_char(&mut r, '|');
    append_string(&mut r, &value);
    Some(r)
}

/// Why a state file could not be read.
#[derive(Debug, Clone, Copy, PartialEq, Eq, Structural)]
pub enum StateFileError {
    /// An entry has no `>` between its location and its value.
    MissingValue,
    /// A value is no hexadecimal text.
    InvalidHex,
}

/// Reading one `location>hex` entry into a map.
pub open spec fn read_entry(m: Map<Seq<char>, Seq<u8>>, entry: Seq<char>) -> Result<
    Map<Seq<char>, Seq<u8>>,
    StateFileError,
> {
    let parts = split_on(entry, '>');
    if parts.len() < 2 {
        Err(StateFileError::MissingValue)
    } else if !is_hex_text(trimmed(parts[1])) {
        Err(StateFileError::InvalidHex)
    } else {
        Ok(m.insert(parts[0], hex_decoding(trimmed(parts[1]))))
    }
}

/// Reading entries in order; the first bad one decides the error.
pub open spec fn read_entries(es: Seq<Seq<char>>) -> Result<Map<Seq<char>, Seq<u8>>, StateFileError>
    decreases es.len(),
{
    if es.len() == 0 {
        Ok(Map::empty())
    } else {
        match read_entries(es.drop_last()) {
            Ok(m) => read_entry(m, es.last()),
            Err(e) => Err(e),
        }
    }
}

/// The state a state file holds: `location>hex` entries separated by `*`;
/// an empty file holds none.
pub open spec fn state_file(contents: Seq<char>) -> Result<Map<Seq<char>, Seq<u8>>, StateFileError> {
    if contents.len() == 0 {
        Ok(Map::empty())
    } else {
        read_entries(split_on(contents, '*'))
    }
}

proof fn lemma_first_error_stays(es: Seq<Seq<char>>, k: int)
    requires
        0 <= k <= es.len(),
        read_entries(es.subrange(0, k)) is Err,
    ensures
        read_entries(es) == read_entries(es.subrange(0, k)),
    decreases es.len() - k,
{
    if k < es.len() {
        assert(es.subrange(0, k + 1).drop_last() =~= es.subrange(0, k));
        lemma_first_error_stays(es, k + 1);
    } else {
        assert(es.subrange(0, k) =~= es);
    }
}

/// Reads a state file: `location>hex` entries separated by `*`, each value
/// with optional surrounding whitespace. A later entry for a location
/// replaces an earlier one.
pub fn parse_state_file(contents: &str) -> (r: Result<ByteMap, StateFileError>)
    ensures
        match state_file(contents@) {
            Ok(m) => r is Ok && r->Ok_0.wf() && r->Ok_0@ == m,
            Err(e) => r is Err && r->Err_0 == e,
        },
{
    let mut state = ByteMap::new();
    if contents.unicode_len() == 0 {
        return Ok(state);
    }
    let pairs = split_string(contents, '*');
    let ghost pv = string_views(pairs@);
    let mut i: usize = 0;
    assert(pv.subrange(0, 0) =~= Seq::<Seq<char>>::empty());
    while i < pairs.len()
        invariant
            contents@.len() > 0,
            state.wf(),
            pv == string_views(pairs@),
            pv == split_on(contents@, '*'),
            i <= pairs@.len(),
            read_entries(pv.subrange(0, i as int)) == Ok::<Map<Seq<char>, Seq<u8>>, StateFileError>(state@),
        decreases pairs@.len() - i,
    {
        assert(pv.subrange(0, i as int + 1).drop_last() =~= pv.subrange(0, i as int));
        assert(pv.subrange(0, i as int + 1).last() == pairs@[i as int]@);
        let segments = split_string(pairs[i].as_str(), '>');
        if segments.len() < 2 {
            proof {
                lemma_first_error_stays(pv, i as int + 1);
            }
            return Err(StateFileError::MissingValue);
        }
        assert(string_views(segments@)[1] == segments@[1]@);
        assert(string_views(segments@)[0] == segments@[0]@);
        let value_text = trim_text(segments[1].as_str());
        let value = match hex_decode(value_text.as_str()) {
            Ok(v) => v,
            Err(_) => {
                proof {
                    lemma_first_error_stays(pv, i as int + 1);
                }
                return Err(StateFileError::InvalidHex);
            },
        };
        let key = segments[0].clone();
        state.insert(key, value);
        i = i + 1;
    }
    assert(pv.subrange(0, pairs@.len() as int) =~= pv);
    Ok(state)
}

} // verus!
