use vstd::prelude::*;
use vstd::bytes::{lemma_auto_spec_u32_to_from_le_bytes, spec_u32_from_le_bytes, u32_from_le_bytes};
use vstd::slice::{slice_subrange, slice_to_vec};
use vstd::string::StrSliceExecFns;
use vstd::utf8::{valid_utf8, decode_utf8};
use crate::parsers::{P4KeyValuePair, P4KvpStream, utf8_to_str};

verus! {

/// Errors of the binary dictionary decoder.
#[derive(Debug, PartialEq)]
pub enum P4PyDictParseError {
    /// The input ended inside a record, a length prefix or a string body.
    UnexpectedEof,
    /// A byte in tag position that the current state does not accept.
    InvalidTag { tag: u8 },
    /// A key or value that is not well-formed UTF-8.
    InvalidUtf8,
}

/// The decoder's state between tokens. `Root` expects a new record or the end
/// of the input, `Dict` a key tag or the record close, `Key` the key string,
/// `Value` the value string; `Eof` is terminal.
#[derive(Debug, PartialEq, Eq, Structural, Clone, Copy)]
pub enum PyDictParseState {
    Root,
    Dict,
    Key,
    Value,
    Eof,
}

/// The classification of one byte in tag position.
#[derive(Debug, PartialEq, Eq, Structural, Clone, Copy)]
pub enum PyDictTag {
    /// `{`: a record (dictionary) opens.
    Dict,
    /// `s`: a length-prefixed string follows.
    String,
    /// `0`: the open record closes.
    Null,
    /// Any other byte: invalid in tag position.
    Other,
    /// Not a byte: the input is exhausted.
    Eof,
}

/// The byte `{`, opening a record.
pub const TAG_BYTE_DICT: u8 = 123;

/// The byte `s`, announcing a length-prefixed string.
pub const TAG_BYTE_STRING: u8 = 115;

/// The byte `0`, closing a record.
pub const TAG_BYTE_NULL: u8 = 48;

/// The tag denoted by byte `b`.
pub open spec fn spec_tag(b: u8) -> PyDictTag {
    if b == TAG_BYTE_DICT {
        PyDictTag::Dict
    } else if b == TAG_BYTE_STRING {
        PyDictTag::String
    } else if b == TAG_BYTE_NULL {
        PyDictTag::Null
    } else {
        PyDictTag::Other
    }
}

impl PyDictTag {
    /// Classify one byte in tag position.
    pub fn from_byte(byte: u8) -> (t: Self)
        ensures
            t == spec_tag(byte),
    {
        if byte == TAG_BYTE_DICT {
            PyDictTag::Dict
        } else if byte == TAG_BYTE_STRING {
            PyDictTag::String
        } else if byte == TAG_BYTE_NULL {
            PyDictTag::Null
        } else {
            PyDictTag::Other
        }
    }
}

/// A length-prefixed string token at `pos`: 4 little-endian length bytes, then
/// that many content bytes. Yields the content and the position just past it,
/// or `None` when the input ends inside the token.
pub open spec fn spec_string_at(s: Seq<u8>, pos: int) -> Option<(Seq<u8>, int)> {
    if pos + 4 <= s.len() {
        let l = spec_u32_from_le_bytes(s.subrange(pos, pos + 4)) as int;
        if pos + 4 + l <= s.len() {
            Some((s.subrange(pos + 4, pos + 4 + l), pos + 4 + l))
        } else {
            None
        }
    } else {
        None
    }
}

/// The outcome of pulling once on the binary stream: the next key-value pair
/// together with the configuration left behind, clean exhaustion, or the
/// first structural violation.
pub enum BinPull {
    Pair { idx: int, key: Seq<u8>, val: Seq<u8>, pos: int, state: PyDictParseState },
    End,
    Fail { err: P4PyDictParseError },
}

/// The rest of a pull once a key has been read and the value's string tag
/// consumed: the value string at `pos`, then one tag of lookahead deciding
/// whether the record continues (`s`) or closes (`0`).
pub open spec fn spec_pull_at_value(s: Seq<u8>, pos: int, idx: int, key: Seq<u8>) -> BinPull {
    match spec_string_at(s, pos) {
        None => BinPull::Fail { err: P4PyDictParseError::UnexpectedEof },
        Some((val, p2)) => {
            if p2 == s.len() {
                BinPull::Fail { err: P4PyDictParseError::UnexpectedEof }
            } else if spec_tag(s[p2]) is String {
                BinPull::Pair { idx, key, val, pos: p2 + 1, state: PyDictParseState::Key }
            } else if spec_tag(s[p2]) is Null {
                BinPull::Pair { idx, key, val, pos: p2 + 1, state: PyDictParseState::Root }
            } else {
                BinPull::Fail { err: P4PyDictParseError::InvalidTag { tag: s[p2] } }
            }
        },
    }
}

/// One pull of the binary decoder from configuration (`pos`, `state`): the
/// grammar's state table. In `Root`, `n` is the index the next record will
/// get; in `Dict` and `Key` it is the index of the open record.
pub open spec fn spec_pull(s: Seq<u8>, pos: int, state: PyDictParseState, n: int) -> BinPull
    decreases s.len() - pos,
    when 0 <= pos <= s.len()
{
    match state {
        PyDictParseState::Root => {
            if pos == s.len() {
                BinPull::End
            } else if spec_tag(s[pos]) is Dict {
                spec_pull(s, pos + 1, PyDictParseState::Dict, n)
            } else {
                BinPull::Fail { err: P4PyDictParseError::InvalidTag { tag: s[pos] } }
            }
        },
        PyDictParseState::Dict => {
            if pos == s.len() {
                BinPull::Fail { err: P4PyDictParseError::UnexpectedEof }
            } else if spec_tag(s[pos]) is String {
                spec_pull(s, pos + 1, PyDictParseState::Key, n)
            } else if spec_tag(s[pos]) is Null {
                spec_pull(s, pos + 1, PyDictParseState::Root, n + 1)
            } else {
                BinPull::Fail { err: P4PyDictParseError::InvalidTag { tag: s[pos] } }
            }
        },
        PyDictParseState::Key => {
            match spec_string_at(s, pos) {
                None => BinPull::Fail { err: P4PyDictParseError::UnexpectedEof },
                Some((key, p1)) => {
                    if p1 == s.len() {
                        BinPull::Fail { err: P4PyDictParseError::UnexpectedEof }
                    } else if spec_tag(s[p1]) is String {
                        spec_pull_at_value(s, p1 + 1, n, key)
                    } else {
                        BinPull::Fail { err: P4PyDictParseError::InvalidTag { tag: s[p1] } }
                    }
                },
            }
        },
        // `Value` never rests between pulls (see `spec_pull_at_value`); `Eof`
        // is stable exhaustion.
        _ => BinPull::End,
    }
}

/// Streaming decoder of the binary, length-prefixed, nested-dictionary wire
/// format, pulled one key-value pair at a time.
pub struct P4PyDictParser {
    pub input: Vec<u8>,
    pub pos: usize,
    pub state: PyDictParseState,
    pub current_dict_index: Option<u32>,
    // Owned buffers re-used across pulls for the decoded key and value bytes.
    pub current_key_buffer: Vec<u8>,
    pub current_value_buffer: Vec<u8>,
}

impl P4PyDictParser {
    /// Basic well-formedness, preserved through every state.
    pub open spec fn inv(self) -> bool {
        &&& self.pos as int <= self.input@.len()
        &&& self.input@.len() <= u32::MAX as int
        &&& ((self.state is Dict || self.state is Key || self.state is Value)
            ==> self.current_dict_index is Some)
        &&& (self.current_dict_index matches Some(k) ==> k as int + 1 <= self.pos as int)
    }

    /// Well-formedness at rest, between two pulls.
    pub open spec fn wf(self) -> bool {
        &&& self.inv()
        &&& (self.state is Root || self.state is Key || self.state is Eof)
    }

    /// The record index the model is at: in `Root`, the index the next record
    /// will get; elsewhere, the index of the open record.
    pub open spec fn spec_idx(self) -> int {
        match self.state {
            PyDictParseState::Root => match self.current_dict_index {
                None => 0,
                Some(k) => k as int + 1,
            },
            _ => match self.current_dict_index {
                Some(k) => k as int,
                None => 0,
            },
        }
    }

    /// What the next pull on this decoder must produce.
    pub open spec fn spec_model(self) -> BinPull {
        match self.state {
            PyDictParseState::Value => spec_pull_at_value(
                self.input@,
                self.pos as int,
                self.spec_idx(),
                self.current_key_buffer@,
            ),
            _ => spec_pull(self.input@, self.pos as int, self.state, self.spec_idx()),
        }
    }

    /// A decoder positioned at the start of `input`.
    pub fn new(input: Vec<u8>) -> (r: Self)
        requires
            input@.len() <= u32::MAX as int,
        ensures
            r.wf(),
            r.input@ == input@,
            r.pos == 0,
            r.state is Root,
            r.current_dict_index is None,
    {
        P4PyDictParser {
            input,
            pos: 0,
            state: PyDictParseState::Root,
            current_dict_index: None,
            current_key_buffer: Vec::new(),
            current_value_buffer: Vec::new(),
        }
    }

    /// Read one byte in tag position. At the end of the input this returns
    /// `Ok(Eof)` without consuming; otherwise the byte is consumed and its tag
    /// returned when it is in `tags`, or reported as invalid when not.
    fn expect_tags(&mut self, tags: &[PyDictTag]) -> (r: Result<PyDictTag, P4PyDictParseError>)
        requires
            old(self).pos as int <= old(self).input@.len(),
        ensures
            final(self).input == old(self).input,
            final(self).state == old(self).state,
            final(self).current_dict_index == old(self).current_dict_index,
            final(self).current_key_buffer == old(self).current_key_buffer,
            final(self).current_value_buffer == old(self).current_value_buffer,
            old(self).pos as int == old(self).input@.len() ==> r == Ok::<PyDictTag,
                P4PyDictParseError>(PyDictTag::Eof) && final(self).pos == old(self).pos,
            (old(self).pos as int) < old(self).input@.len() ==> {
                let t = spec_tag(old(self).input@[old(self).pos as int]);
                &&& final(self).pos as int == old(self).pos as int + 1
                &&& (tags@.contains(t) ==> r == Ok::<PyDictTag, P4PyDictParseError>(t))
                &&& (!tags@.contains(t) ==> r == Err::<PyDictTag, P4PyDictParseError>(
                    P4PyDictParseError::InvalidTag { tag: old(self).input@[old(self).pos as int] },
                ))
            },
    {
        if self.pos == self.input.len() {
            return Ok(PyDictTag::Eof);
        }
        let b = self.input[self.pos];
        self.pos = self.pos + 1;
        let found_tag = PyDictTag::from_byte(b);
        let mut i: usize = 0;
        while i < tags.len()
            invariant
                0 <= i <= tags@.len(),
                found_tag == spec_tag(b),
                b == old(self).input@[old(self).pos as int],
                forall|j: int| 0 <= j < i ==> tags@[j] != found_tag,
                self.input == old(self).input,
                self.state == old(self).state,
                self.current_dict_index == old(self).current_dict_index,
                self.current_key_buffer == old(self).current_key_buffer,
                self.current_value_buffer == old(self).current_value_buffer,
                self.pos as int == old(self).pos as int + 1,
                (old(self).pos as int) < old(self).input@.len(),
            decreases tags@.len() - i,
        {
            if tags[i] == found_tag {
                return Ok(found_tag);
            }
            i = i + 1;
        }
        Err(P4PyDictParseError::InvalidTag { tag: b })
    }

    /// Read one length-prefixed string token at `*pos` into `buffer`, exactly
    /// per `spec_string_at`; the input ending inside the token is an error.
    fn read_string(input: &Vec<u8>, pos: &mut usize, buffer: &mut Vec<u8>) -> (r: Result<(),
        P4PyDictParseError>)
        requires
            *old(pos) as int <= input@.len(),
        ensures
            match r {
                Ok(()) => spec_string_at(input@, *old(pos) as int) matches Some((sbytes, p2))
                    && final(buffer)@ == sbytes && *final(pos) as int == p2,
                Err(e) => {
                    &&& e == P4PyDictParseError::UnexpectedEof
                    &&& spec_string_at(input@, *old(pos) as int) is None
                    &&& *old(pos) <= *final(pos)
                    &&& *final(pos) as int <= input@.len()
                },
            },
    {
        buffer.clear();
        if input.len() - *pos < 4 {
            return Err(P4PyDictParseError::UnexpectedEof);
        }
        let len_bytes = slice_subrange(input.as_slice(), *pos, *pos + 4);
        let len = u32_from_le_bytes(len_bytes);
        *pos = *pos + 4;
        let len_us = len as usize;
        if input.len() - *pos < len_us {
            return Err(P4PyDictParseError::UnexpectedEof);
        }
        let content = slice_subrange(input.as_slice(), *pos, *pos + len_us);
        let copied = slice_to_vec(content);
        *buffer = copied;
        *pos = *pos + len_us;
        Ok(())
    }

    /// Drive the state machine by one transition. `Ok(true)` means a pair has
    /// been completed: it sits in the two buffers, under the index in
    /// `current_dict_index`. Any structural violation is terminal.
    fn advance(&mut self) -> (r: Result<bool, P4PyDictParseError>)
        requires
            old(self).inv(),
            !(old(self).state is Eof),
        ensures
            final(self).inv(),
            final(self).input == old(self).input,
            match r {
                Ok(true) => old(self).spec_model() matches BinPull::Pair { idx, key, val, pos, state }
                    && final(self).current_key_buffer@ == key
                    && final(self).current_value_buffer@ == val
                    && final(self).pos as int == pos
                    && final(self).state == state
                    && (final(self).state is Key || final(self).state is Root)
                    && (final(self).current_dict_index matches Some(k) && k as int == idx),
                Ok(false) => final(self).spec_model() == old(self).spec_model()
                    && final(self).pos >= old(self).pos
                    && (final(self).state is Eof || final(self).pos > old(self).pos),
                Err(e) => old(self).spec_model() == (BinPull::Fail { err: e })
                    && final(self).state is Eof,
            },
    {
        match self.state {
            PyDictParseState::Root => {
                let mut tags: Vec<PyDictTag> = Vec::new();
                tags.push(PyDictTag::Dict);
                tags.push(PyDictTag::Eof);
                proof {
                    assert(tags@[0] == PyDictTag::Dict && tags@[1] == PyDictTag::Eof);
                    assert(tags@.contains(PyDictTag::Dict));
                }
                match self.expect_tags(tags.as_slice()) {
                    Err(e) => {
                        self.state = PyDictParseState::Eof;
                        Err(e)
                    },
                    Ok(PyDictTag::Dict) => {
                        match self.current_dict_index {
                            None => {
                                self.current_dict_index = Some(0);
                            },
                            Some(k) => {
                                self.current_dict_index = Some(k + 1);
                            },
                        }
                        self.state = PyDictParseState::Dict;
                        Ok(false)
                    },
                    Ok(PyDictTag::Eof) => {
                        proof {
                            assert(!(spec_tag(old(self).input@[old(self).pos as int]) is Eof));
                        }
                        self.state = PyDictParseState::Eof;
                        Ok(false)
                    },
                    Ok(t) => {
                        proof {
                            let i = choose|i: int| 0 <= i < tags@.len() && tags@[i] == t;
                            assert(false);
                        }
                        Ok(false)
                    },
                }
            },
            PyDictParseState::Dict => {
                let mut tags: Vec<PyDictTag> = Vec::new();
                tags.push(PyDictTag::String);
                tags.push(PyDictTag::Null);
                proof {
                    assert(tags@[0] == PyDictTag::String && tags@[1] == PyDictTag::Null);
                    assert(tags@.contains(PyDictTag::String));
                    assert(tags@.contains(PyDictTag::Null));
                }
                match self.expect_tags(tags.as_slice()) {
                    Err(e) => {
                        self.state = PyDictParseState::Eof;
                        Err(e)
                    },
                    Ok(PyDictTag::String) => {
                        self.state = PyDictParseState::Key;
                        Ok(false)
                    },
                    Ok(PyDictTag::Null) => {
                        self.state = PyDictParseState::Root;
                        Ok(false)
                    },
                    Ok(PyDictTag::Eof) => {
                        proof {
                            assert(!(spec_tag(old(self).input@[old(self).pos as int]) is Eof));
                        }
                        self.state = PyDictParseState::Eof;
                        Err(P4PyDictParseError::UnexpectedEof)
                    },
                    Ok(t) => {
                        proof {
                            let i = choose|i: int| 0 <= i < tags@.len() && tags@[i] == t;
                            assert(false);
                        }
                        Ok(false)
                    },
                }
            },
            PyDictParseState::Key => {
                match Self::read_string(&self.input, &mut self.pos, &mut self.current_key_buffer) {
                    Err(e) => {
                        self.state = PyDictParseState::Eof;
                        Err(e)
                    },
                    Ok(()) => {
                        let mut tags: Vec<PyDictTag> = Vec::new();
                        tags.push(PyDictTag::String);
                        proof {
                            assert(tags@[0] == PyDictTag::String);
                            assert(tags@.contains(PyDictTag::String));
                        }
                        match self.expect_tags(tags.as_slice()) {
                            Err(e) => {
                                self.state = PyDictParseState::Eof;
                                Err(e)
                            },
                            Ok(PyDictTag::String) => {
                                self.state = PyDictParseState::Value;
                                Ok(false)
                            },
                            Ok(PyDictTag::Eof) => {
                                proof {
                                    assert(!(spec_tag(old(self).input@[self.pos as int - 1])
                                        is Eof));
                                }
                                self.state = PyDictParseState::Eof;
                                Err(P4PyDictParseError::UnexpectedEof)
                            },
                            Ok(t) => {
                                proof {
                                    let i = choose|i: int| 0 <= i < tags@.len() && tags@[i] == t;
                                    assert(false);
                                }
                                Ok(false)
                            },
                        }
                    },
                }
            },
            PyDictParseState::Value => {
                match Self::read_string(&self.input, &mut self.pos, &mut self.current_value_buffer) {
                    Err(e) => {
                        self.state = PyDictParseState::Eof;
                        Err(e)
                    },
                    Ok(()) => {
                        let mut tags: Vec<PyDictTag> = Vec::new();
                        tags.push(PyDictTag::String);
                        tags.push(PyDictTag::Null);
                        proof {
                            assert(tags@[0] == PyDictTag::String && tags@[1] == PyDictTag::Null);
                            assert(tags@.contains(PyDictTag::String));
                            assert(tags@.contains(PyDictTag::Null));
                        }
                        match self.expect_tags(tags.as_slice()) {
                            Err(e) => {
                                self.state = PyDictParseState::Eof;
                                Err(e)
                            },
                            Ok(PyDictTag::String) => {
                                self.state = PyDictParseState::Key;
                                Ok(true)
                            },
                            Ok(PyDictTag::Null) => {
                                self.state = PyDictParseState::Root;
                                Ok(true)
                            },
                            Ok(PyDictTag::Eof) => {
                                proof {
                                    assert(!(spec_tag(old(self).input@[self.pos as int - 1])
                                        is Eof));
                                }
                                self.state = PyDictParseState::Eof;
                                Err(P4PyDictParseError::UnexpectedEof)
                            },
                            Ok(t) => {
                                proof {
                                    let i = choose|i: int| 0 <= i < tags@.len() && tags@[i] == t;
                                    assert(false);
                                }
                                Ok(false)
                            },
                        }
                    },
                }
            },
            PyDictParseState::Eof => {
                proof {
                    assert(false);
                }
                Ok(false)
            },
        }
    }

    /// Pull the next key-value pair. Exactly per `spec_model`: the next pair
    /// of the grammar with its record index, `Ok(None)` on clean exhaustion
    /// (stable under re-pulling), or the first structural violation. A key or
    /// value that is not UTF-8 is an error. Every error is terminal: later
    /// pulls report exhaustion.
    pub fn get_next_kvp(&mut self) -> (r: Result<Option<P4KeyValuePair>, P4PyDictParseError>)
        requires
            old(self).wf(),
        ensures
            final(self).wf(),
            final(self).input == old(self).input,
            match old(self).spec_model() {
                BinPull::End => r matches Ok(o) && o is None && final(self).state is Eof,
                BinPull::Fail { err } => r matches Err(e) && e == err && final(self).state is Eof,
                BinPull::Pair { idx, key, val, pos, state } => {
                    if valid_utf8(key) && valid_utf8(val) {
                        &&& r matches Ok(o) && o matches Some(kvp)
                            && kvp.dict_index as int == idx
                            && kvp.key@ == decode_utf8(key)
                            && kvp.value@ == decode_utf8(val)
                        &&& final(self).pos as int == pos
                        &&& final(self).state == state
                        &&& (final(self).current_dict_index matches Some(k) && k as int == idx)
                    } else {
                        r matches Err(e) && e == P4PyDictParseError::InvalidUtf8
                            && final(self).state is Eof
                    }
                },
            },
            match r {
                Ok(o) => match o {
                    Some(kvp) => {
                        &&& old(self).spec_rest().0.len() > 0
                        &&& old(self).spec_rest().0[0] == (SpecTriple {
                            idx: kvp.dict_index as int,
                            key: kvp.key@,
                            val: kvp.value@,
                        })
                        &&& final(self).spec_rest().0 == old(self).spec_rest().0.drop_first()
                        &&& final(self).spec_rest().1 == old(self).spec_rest().1
                    },
                    None => old(self).spec_rest().0.len() == 0 && old(self).spec_rest().1 is None,
                },
                Err(e) => old(self).spec_rest().0.len() == 0 && old(self).spec_rest().1 == Some(e),
            },
    {
        while self.state != PyDictParseState::Eof
            invariant
                old(self).wf(),
                self.inv(),
                self.input == old(self).input,
                self.spec_model() == old(self).spec_model(),
                self.spec_rest() == old(self).spec_rest(),
            decreases self.input@.len() - self.pos as int + (if self.state is Eof { 0int } else { 1int }),
        {
            match self.advance() {
                Err(e) => {
                    return Err(e);
                },
                Ok(true) => {
                    match utf8_to_str(self.current_key_buffer.as_slice()) {
                        None => {
                            self.state = PyDictParseState::Eof;
                            return Err(P4PyDictParseError::InvalidUtf8);
                        },
                        Some(ks) => {
                            let key_string = ks.to_owned();
                            match utf8_to_str(self.current_value_buffer.as_slice()) {
                                None => {
                                    self.state = PyDictParseState::Eof;
                                    return Err(P4PyDictParseError::InvalidUtf8);
                                },
                                Some(vs) => {
                                    let value_string = vs.to_owned();
                                    let idx = self.current_dict_index.unwrap();
                                    proof {
                                        lemma_rest_step(
                                            *old(self),
                                            *self,
                                            idx as int,
                                            key_string@,
                                            value_string@,
                                        );
                                    }
                                    return Ok(Some(P4KeyValuePair {
                                        dict_index: idx,
                                        key: key_string,
                                        value: value_string,
                                    }));
                                },
                            }
                        },
                    }
                },
                Ok(false) => {
                },
            }
        }
        Ok(None)
    }
}

/// One decoded triple at the text level: the record index and the key and
/// value characters.
#[verifier::ext_equal]
pub struct SpecTriple {
    pub idx: int,
    pub key: Seq<char>,
    pub val: Seq<char>,
}

/// A yielded pair always advances the position, and never past the end.
pub proof fn lemma_pull_progress(s: Seq<u8>, pos: int, state: PyDictParseState, n: int)
    requires
        0 <= pos <= s.len(),
    ensures
        spec_pull(s, pos, state, n) matches BinPull::Pair { pos: p2, .. } ==> pos < p2 <= s.len(),
    decreases s.len() - pos,
{
    match state {
        PyDictParseState::Root => {
            if pos < s.len() && spec_tag(s[pos]) is Dict {
                lemma_pull_progress(s, pos + 1, PyDictParseState::Dict, n);
            }
        },
        PyDictParseState::Dict => {
            if pos < s.len() {
                if spec_tag(s[pos]) is String {
                    lemma_pull_progress(s, pos + 1, PyDictParseState::Key, n);
                } else if spec_tag(s[pos]) is Null {
                    lemma_pull_progress(s, pos + 1, PyDictParseState::Root, n + 1);
                }
            }
        },
        PyDictParseState::Key => {
        },
        _ => {
        },
    }
}

/// The triples still to be yielded, given the outcome of the next pull, with
/// how the stream then ends: `None` for clean exhaustion, or the terminal
/// error.
pub open spec fn spec_run(s: Seq<u8>, p: BinPull) -> (Seq<SpecTriple>, Option<P4PyDictParseError>)
    decreases (match p {
        BinPull::Pair { pos, .. } => s.len() - pos + 1,
        _ => 0int,
    }),
    when (match p {
        BinPull::Pair { pos, .. } => 0 <= pos <= s.len(),
        _ => true,
    })
    via spec_run_decreases
{
    match p {
        BinPull::End => (Seq::empty(), None),
        BinPull::Fail { err } => (Seq::empty(), Some(err)),
        BinPull::Pair { idx, key, val, pos, state } => {
            if valid_utf8(key) && valid_utf8(val) {
                let n2 = if state is Key {
                    idx
                } else {
                    idx + 1
                };
                let rest = spec_run(s, spec_pull(s, pos, state, n2));
                (
                    seq![SpecTriple { idx, key: decode_utf8(key), val: decode_utf8(val) }]
                        + rest.0,
                    rest.1,
                )
            } else {
                (Seq::empty(), Some(P4PyDictParseError::InvalidUtf8))
            }
        },
    }
}

#[via_fn]
proof fn spec_run_decreases(s: Seq<u8>, p: BinPull) {
    match p {
        BinPull::Pair { idx, key, val, pos, state } => {
            let n2 = if state is Key {
                idx
            } else {
                idx + 1
            };
            if 0 <= pos <= s.len() {
                lemma_pull_progress(s, pos, state, n2);
            }
        },
        _ => {
        },
    }
}

impl P4PyDictParser {
    /// The triples this decoder will still yield, and how the stream ends.
    pub open spec fn spec_rest(self) -> (Seq<SpecTriple>, Option<P4PyDictParseError>) {
        spec_run(self.input@, self.spec_model())
    }
}

/// Yielding one pair takes the head off the remaining triples and leaves the
/// stream's end unchanged.
pub proof fn lemma_rest_step(pre: P4PyDictParser, post: P4PyDictParser, i: int, k: Seq<char>, v: Seq<char>)
    requires
        pre.inv(),
        post.inv(),
        post.input == pre.input,
        pre.spec_model() matches BinPull::Pair { idx, key, val, pos, state }
            && valid_utf8(key) && valid_utf8(val)
            && (state is Key || state is Root)
            && i == idx && k == decode_utf8(key) && v == decode_utf8(val)
            && post.pos as int == pos && post.state == state
            && (post.current_dict_index matches Some(x) && x as int == idx),
    ensures
        pre.spec_rest().0.len() > 0,
        pre.spec_rest().0[0] == (SpecTriple { idx: i, key: k, val: v }),
        post.spec_rest().0 == pre.spec_rest().0.drop_first(),
        post.spec_rest().1 == pre.spec_rest().1,
{
    let m = pre.spec_model();
    let s = pre.input@;
    match m {
        BinPull::Pair { idx, key, val, pos, state } => {
            let n2 = if state is Key {
                idx
            } else {
                idx + 1
            };
            assert(post.spec_idx() == n2);
            assert(post.spec_model() == spec_pull(s, pos, state, n2));
            let q = spec_pull(s, pos, state, n2);
            let t = SpecTriple { idx, key: decode_utf8(key), val: decode_utf8(val) };
            assert(0 <= pos <= s.len());
            lemma_pull_progress(s, pos, state, n2);
            assert(spec_run(s, m) == (seq![t] + spec_run(s, q).0, spec_run(s, q).1)) by {
                reveal_with_fuel(spec_run, 2);
            }
            assert(pre.spec_rest().0 =~= seq![t] + post.spec_rest().0);
            assert((seq![t] + post.spec_rest().0).drop_first() =~= post.spec_rest().0);
        },
        _ => {
            assert(false);
        },
    }
}

/// The triples decoded from `input` taken as a whole binary stream, and how
/// the stream ends.
pub open spec fn spec_run_of_input(input: Seq<u8>) -> (Seq<SpecTriple>, Option<
    P4PyDictParseError,
>) {
    spec_run(input, spec_pull(input, 0, PyDictParseState::Root, 0))
}

// == The shape of a well-formed stream
//
// A well-formed binary stream is the encoding of a sequence of records, each
// a sequence of key-value byte pairs. Decoding such a stream yields exactly
// one triple per pair, in order, and ends cleanly.

/// The encoding of one string token: its tag, the little-endian length, the
/// content bytes.
pub open spec fn enc_str(b: Seq<u8>) -> Seq<u8> {
    seq![TAG_BYTE_STRING] + vstd::bytes::spec_u32_to_le_bytes(b.len() as u32) + b
}

/// The encoding of a record's key-value pairs.
pub open spec fn enc_pairs(ps: Seq<(Seq<u8>, Seq<u8>)>) -> Seq<u8>
    decreases ps.len(),
{
    if ps.len() == 0 {
        Seq::empty()
    } else {
        enc_str(ps[0].0) + enc_str(ps[0].1) + enc_pairs(ps.drop_first())
    }
}

/// The encoding of one record: open tag, pairs, close tag.
pub open spec fn enc_record(ps: Seq<(Seq<u8>, Seq<u8>)>) -> Seq<u8> {
    seq![TAG_BYTE_DICT] + enc_pairs(ps) + seq![TAG_BYTE_NULL]
}

/// The encoding of a whole stream of records.
pub open spec fn enc_stream(rs: Seq<Seq<(Seq<u8>, Seq<u8>)>>) -> Seq<u8>
    decreases rs.len(),
{
    if rs.len() == 0 {
        Seq::empty()
    } else {
        enc_record(rs[0]) + enc_stream(rs.drop_first())
    }
}

/// Every key and value fits its length prefix and is well-formed UTF-8.
pub open spec fn wf_pairs(ps: Seq<(Seq<u8>, Seq<u8>)>) -> bool {
    forall|i: int|
        0 <= i < ps.len() ==> {
            &&& (#[trigger] ps[i]).0.len() <= u32::MAX
            &&& ps[i].1.len() <= u32::MAX
            &&& valid_utf8(ps[i].0)
            &&& valid_utf8(ps[i].1)
        }
}

/// Every record holds well-formed pairs.
pub open spec fn wf_records(rs: Seq<Seq<(Seq<u8>, Seq<u8>)>>) -> bool {
    forall|r: int| 0 <= r < rs.len() ==> wf_pairs(#[trigger] rs[r])
}

/// The triples of one record, all under index `n`.
pub open spec fn rec_triples(ps: Seq<(Seq<u8>, Seq<u8>)>, n: int) -> Seq<SpecTriple> {
    Seq::new(
        ps.len(),
        |i: int| SpecTriple { idx: n, key: decode_utf8(ps[i].0), val: decode_utf8(ps[i].1) },
    )
}

/// The triples of a whole stream, record `r` under index `n + r`.
pub open spec fn flat_triples(rs: Seq<Seq<(Seq<u8>, Seq<u8>)>>, n: int) -> Seq<SpecTriple>
    decreases rs.len(),
{
    if rs.len() == 0 {
        Seq::empty()
    } else {
        rec_triples(rs[0], n) + flat_triples(rs.drop_first(), n + 1)
    }
}

/// The total number of key-value pairs over all records.
pub open spec fn spec_total_pairs(rs: Seq<Seq<(Seq<u8>, Seq<u8>)>>) -> int
    decreases rs.len(),
{
    if rs.len() == 0 {
        0
    } else {
        rs[0].len() + spec_total_pairs(rs.drop_first())
    }
}

/// Two byte strings laid side by side in `s` each occupy their own range.
proof fn lemma_split_at(s: Seq<u8>, pos: int, a: Seq<u8>, b: Seq<u8>)
    requires
        0 <= pos,
        pos + a.len() + b.len() <= s.len(),
        s.subrange(pos, pos + a.len() + b.len()) == a + b,
    ensures
        s.subrange(pos, pos + a.len()) == a,
        s.subrange(pos + a.len(), pos + a.len() + b.len()) == b,
{
    assert forall|i: int| 0 <= i < a.len() implies s.subrange(pos, pos + a.len())[i] == a[i] by {
        assert(s.subrange(pos, pos + a.len() + b.len())[i] == s[pos + i]);
        assert((a + b)[i] == a[i]);
    }
    assert(s.subrange(pos, pos + a.len()) =~= a);
    assert forall|i: int| 0 <= i < b.len() implies s.subrange(
        pos + a.len(),
        pos + a.len() + b.len(),
    )[i] == b[i] by {
        assert(s.subrange(pos, pos + a.len() + b.len())[a.len() + i] == s[pos + a.len() + i]);
        assert((a + b)[a.len() + i] == b[i]);
    }
    assert(s.subrange(pos + a.len(), pos + a.len() + b.len()) =~= b);
}

/// Dropping the first byte of a known range of `s`.
proof fn lemma_tail_after(s: Seq<u8>, pos: int, end: int, c: Seq<u8>)
    requires
        0 <= pos < end <= s.len(),
        s.subrange(pos, end) == c,
    ensures
        s.subrange(pos + 1, end) == c.drop_first(),
{
    assert forall|i: int| 0 <= i < end - pos - 1 implies s.subrange(pos + 1, end)[i]
        == c.drop_first()[i] by {
        assert(s.subrange(pos, end)[i + 1] == s[pos + 1 + i]);
    }
    assert(s.subrange(pos + 1, end) =~= c.drop_first());
}

/// From the `Key` state, a record's remaining encoded pairs decode to one
/// triple each, and decoding then continues at the next record boundary.
proof fn lemma_run_key(s: Seq<u8>, pos: int, ps: Seq<(Seq<u8>, Seq<u8>)>, n: int)
    requires
        ps.len() >= 1,
        wf_pairs(ps),
        0 <= pos,
        pos + enc_pairs(ps).len() <= s.len(),
        s.subrange(pos, pos + enc_pairs(ps).len()) == enc_pairs(ps).drop_first() + seq![
            TAG_BYTE_NULL,
        ],
    ensures
        ({
            let close = pos + enc_pairs(ps).len();
            let cont = spec_run(s, spec_pull(s, close, PyDictParseState::Root, n + 1));
            spec_run(s, spec_pull(s, pos, PyDictParseState::Key, n)) == (
                rec_triples(ps, n) + cont.0,
                cont.1,
            )
        }),
    decreases ps.len(),
{
    lemma_auto_spec_u32_to_from_le_bytes();
    let k = ps[0].0;
    let v = ps[0].1;
    let rest = ps.drop_first();
    let close = pos + enc_pairs(ps).len();
    let le_k = vstd::bytes::spec_u32_to_le_bytes(k.len() as u32);
    let le_v = vstd::bytes::spec_u32_to_le_bytes(v.len() as u32);
    let a = le_k + k;
    let b = enc_str(v);
    let c = enc_pairs(rest) + seq![TAG_BYTE_NULL];
    assert(valid_utf8(k) && valid_utf8(v) && k.len() <= u32::MAX && v.len() <= u32::MAX);
    assert(enc_pairs(ps) == enc_str(k) + enc_str(v) + enc_pairs(rest));
    assert(enc_pairs(ps).drop_first() + seq![TAG_BYTE_NULL] =~= a + b + c);
    lemma_split_at(s, pos, a + b, c);
    lemma_split_at(s, pos, a, b);
    lemma_split_at(s, pos, le_k, k);
    // The key string token at pos (its tag already consumed).
    assert(spec_u32_from_le_bytes(s.subrange(pos, pos + 4)) == k.len() as u32);
    let pk = pos + 4 + k.len();
    assert(spec_string_at(s, pos) == Some((k, pk)));
    // The value's string tag, then its token.
    assert(b =~= seq![TAG_BYTE_STRING] + (le_v + v));
    lemma_split_at(s, pk, seq![TAG_BYTE_STRING], le_v + v);
    assert(s[pk] == s.subrange(pk, pk + 1)[0]);
    assert(s[pk] == TAG_BYTE_STRING);
    lemma_split_at(s, pk + 1, le_v, v);
    assert(spec_u32_from_le_bytes(s.subrange(pk + 1, pk + 5)) == v.len() as u32);
    let pv = pk + 5 + v.len();
    assert(spec_string_at(s, pk + 1) == Some((v, pv)));
    assert(s.subrange(pv, close) == c);
    let t = SpecTriple { idx: n, key: decode_utf8(k), val: decode_utf8(v) };
    if rest.len() == 0 {
        // The record closes right after this pair.
        assert(c =~= seq![TAG_BYTE_NULL]);
        assert(s[pv] == s.subrange(pv, close)[0]);
        assert(s[pv] == TAG_BYTE_NULL);
        assert(pv + 1 == close);
        assert(spec_pull(s, pos, PyDictParseState::Key, n) == (BinPull::Pair {
            idx: n,
            key: k,
            val: v,
            pos: pv + 1,
            state: PyDictParseState::Root,
        }));
        lemma_pull_progress(s, pv + 1, PyDictParseState::Root, n + 1);
        let cont = spec_run(s, spec_pull(s, close, PyDictParseState::Root, n + 1));
        assert(spec_run(s, spec_pull(s, pos, PyDictParseState::Key, n)) == (
            seq![t] + cont.0,
            cont.1,
        )) by {
            reveal_with_fuel(spec_run, 2);
        }
        assert(seq![t] =~= rec_triples(ps, n));
        assert(spec_run(s, spec_pull(s, pos, PyDictParseState::Key, n)).0 =~= rec_triples(ps, n)
            + cont.0);
    } else {
        // Another pair follows: its key's string tag is the lookahead.
        assert(enc_pairs(rest) == enc_str(rest[0].0) + enc_str(rest[0].1) + enc_pairs(
            rest.drop_first(),
        ));
        assert(enc_str(rest[0].0)[0] == TAG_BYTE_STRING);
        assert(enc_pairs(rest)[0] == TAG_BYTE_STRING);
        assert(s[pv] == s.subrange(pv, close)[0]);
        assert(s[pv] == TAG_BYTE_STRING);
        assert(spec_pull(s, pos, PyDictParseState::Key, n) == (BinPull::Pair {
            idx: n,
            key: k,
            val: v,
            pos: pv + 1,
            state: PyDictParseState::Key,
        }));
        lemma_tail_after(s, pv, close, c);
        assert(c.drop_first() =~= enc_pairs(rest).drop_first() + seq![TAG_BYTE_NULL]);
        assert(wf_pairs(rest));
        lemma_run_key(s, pv + 1, rest, n);
        lemma_pull_progress(s, pv + 1, PyDictParseState::Key, n);
        let cont = spec_run(s, spec_pull(s, close, PyDictParseState::Root, n + 1));
        assert(pv + 1 + enc_pairs(rest).len() == close);
        assert(spec_run(s, spec_pull(s, pos, PyDictParseState::Key, n)) == (
            seq![t] + (rec_triples(rest, n) + cont.0),
            cont.1,
        )) by {
            reveal_with_fuel(spec_run, 2);
        }
        assert(seq![t] + (rec_triples(rest, n) + cont.0) =~= rec_triples(ps, n) + cont.0);
    }
}

/// From a record boundary, an encoded tail of records decodes to its
/// flattened triples and then ends cleanly.
proof fn lemma_run_root(s: Seq<u8>, pos: int, rs: Seq<Seq<(Seq<u8>, Seq<u8>)>>, n: int)
    requires
        wf_records(rs),
        0 <= pos <= s.len(),
        s.subrange(pos, s.len() as int) == enc_stream(rs),
    ensures
        spec_run(s, spec_pull(s, pos, PyDictParseState::Root, n)) == (
            flat_triples(rs, n),
            None::<P4PyDictParseError>,
        ),
    decreases rs.len(),
{
    if rs.len() == 0 {
        assert(pos == s.len());
        assert(flat_triples(rs, n) =~= spec_run(
            s,
            spec_pull(s, pos, PyDictParseState::Root, n),
        ).0);
    } else {
        let ps = rs[0];
        let rest = rs.drop_first();
        assert(wf_pairs(ps) && wf_records(rest));
        assert(enc_stream(rs) == enc_record(ps) + enc_stream(rest));
        let close = pos + 1 + enc_pairs(ps).len() + 1;
        let body = seq![TAG_BYTE_DICT] + enc_pairs(ps) + seq![TAG_BYTE_NULL];
        assert(body.len() == 2 + enc_pairs(ps).len());
        assert(s.subrange(pos, s.len() as int).len() == enc_record(ps).len() + enc_stream(
            rest,
        ).len());
        lemma_split_at(s, pos, body, enc_stream(rest));
        assert(s.subrange(close, s.len() as int) =~= enc_stream(rest));
        lemma_run_root(s, close, rest, n + 1);
        assert(s[pos] == s.subrange(pos, close)[0]);
        assert(s[pos] == TAG_BYTE_DICT);
        if ps.len() == 0 {
            // An empty record: open tag, close tag.
            assert(s[pos + 1] == s.subrange(pos, close)[1]);
            assert(s[pos + 1] == TAG_BYTE_NULL);
            assert(spec_pull(s, pos, PyDictParseState::Root, n) == spec_pull(
                s,
                close,
                PyDictParseState::Root,
                n + 1,
            )) by {
                reveal_with_fuel(spec_pull, 3);
            }
            assert(flat_triples(rs, n) =~= flat_triples(rest, n + 1));
        } else {
            assert(enc_pairs(ps) == enc_str(ps[0].0) + enc_str(ps[0].1) + enc_pairs(
                ps.drop_first(),
            ));
            assert(enc_str(ps[0].0)[0] == TAG_BYTE_STRING);
            assert(s[pos + 1] == s.subrange(pos, close)[1]);
            assert(s[pos + 1] == TAG_BYTE_STRING);
            lemma_tail_after(s, pos, close, body);
            lemma_tail_after(s, pos + 1, close, body.drop_first());
            assert(body.drop_first().drop_first() =~= enc_pairs(ps).drop_first() + seq![
                TAG_BYTE_NULL,
            ]);
            lemma_run_key(s, pos + 2, ps, n);
            assert(pos + 2 + enc_pairs(ps).len() == close);
            assert(spec_pull(s, pos, PyDictParseState::Root, n) == spec_pull(
                s,
                pos + 2,
                PyDictParseState::Key,
                n,
            )) by {
                reveal_with_fuel(spec_pull, 3);
            }
            let cont = spec_run(s, spec_pull(s, close, PyDictParseState::Root, n + 1));
            assert(flat_triples(rs, n) =~= rec_triples(ps, n) + flat_triples(rest, n + 1));
        }
    }
}

/// The flattened triples of a stream: one per pair, indices bounded by the
/// record count and non-decreasing.
proof fn lemma_flat_props(rs: Seq<Seq<(Seq<u8>, Seq<u8>)>>, n: int)
    ensures
        flat_triples(rs, n).len() == spec_total_pairs(rs),
        forall|i: int|
            0 <= i < flat_triples(rs, n).len() ==> n <= (#[trigger] flat_triples(rs, n)[i]).idx
                < n + rs.len(),
        forall|i: int, j: int|
            0 <= i <= j < flat_triples(rs, n).len() ==> flat_triples(rs, n)[i].idx <= flat_triples(
                rs,
                n,
            )[j].idx,
    decreases rs.len(),
{
    if rs.len() > 0 {
        lemma_flat_props(rs.drop_first(), n + 1);
    }
}

/// Law: decoding a well-formed encoded binary stream yields exactly one
/// triple per key-value pair, record by record, and ends cleanly: the triple
/// count equals the total pair count over all records, the triples of record
/// `r` all carry index `r`, and the index sequence is non-decreasing,
/// starting at 0 and stepping by one per record boundary.
pub proof fn lemma_binary_stream_triples(rs: Seq<Seq<(Seq<u8>, Seq<u8>)>>)
    requires
        wf_records(rs),
    ensures
        spec_run_of_input(enc_stream(rs)) == (flat_triples(rs, 0), None::<P4PyDictParseError>),
        flat_triples(rs, 0).len() == spec_total_pairs(rs),
        forall|i: int|
            0 <= i < flat_triples(rs, 0).len() ==> 0 <= (#[trigger] flat_triples(rs, 0)[i]).idx
                < rs.len(),
        forall|i: int, j: int|
            0 <= i <= j < flat_triples(rs, 0).len() ==> flat_triples(rs, 0)[i].idx <= flat_triples(
                rs,
                0,
            )[j].idx,
{
    let s = enc_stream(rs);
    assert(s.subrange(0, s.len() as int) =~= s);
    lemma_run_root(s, 0, rs, 0);
    lemma_flat_props(rs, 0);
}

impl P4KvpStream<P4PyDictParseError> for P4PyDictParser {
    open spec fn ready(&self) -> bool {
        self.wf()
    }

    fn get_next_kvp(&mut self) -> (r: Result<Option<P4KeyValuePair>, P4PyDictParseError>) {
        self.get_next_kvp()
    }
}

} // verus!
