use vstd::prelude::*;
use vstd::utf8::encode_utf8;
use crate::parsers::py_dict::{spec_run_of_input, P4PyDictParseError, P4PyDictParser, SpecTriple};
use crate::parsers::str_eq;
use crate::{
    spec_empty_interim_cl, spec_empty_interim_file, spec_finalize_cl, spec_finalize_file,
    spec_opt_index, spec_parse_u32, spec_parse_u64, spec_split_indexed_key, split_indexed_key,
    InterimP4Changelist, InterimP4File, P4AssembleError, P4Changelist, P4File,
    SpecInterimChangelist, SpecInterimFile, SpecP4Changelist, SpecP4File,
};
use crate::changes::spec_populate_cl;

verus! {

// == Hexadecimal digests

/// The value of one hexadecimal digit byte (`0-9`, `A-F`, `a-f`).
pub open spec fn spec_hex_digit(b: u8) -> Option<u8> {
    if 48 <= b && b <= 57 {
        Some((b - 48) as u8)
    } else if 65 <= b && b <= 70 {
        Some((b - 55) as u8)
    } else if 97 <= b && b <= 102 {
        Some((b - 87) as u8)
    } else {
        None
    }
}

/// A hex string with a leading `0x` or `0X` marker has the marker removed.
pub open spec fn spec_hex_strip(s: Seq<u8>) -> Seq<u8> {
    if s.len() >= 2 && s[0] == 48 && (s[1] == 120 || s[1] == 88) {
        s.skip(2)
    } else {
        s
    }
}

/// Whether `s` decodes as exactly `n` hex bytes: even length, `2n` digits
/// after the optional marker, all of them hexadecimal.
pub open spec fn spec_hex_ok(s: Seq<u8>, n: int) -> bool {
    &&& s.len() % 2 == 0
    &&& spec_hex_strip(s).len() == 2 * n
    &&& (forall|i: int|
        0 <= i < spec_hex_strip(s).len() ==> spec_hex_digit(#[trigger] spec_hex_strip(s)[i])
            is Some)
}

/// The bytes denoted by a string of hex digits, two digits per byte, most
/// significant first.
pub open spec fn spec_hex_bytes(d: Seq<u8>) -> Seq<u8> {
    Seq::new(
        (d.len() / 2) as nat,
        |i: int| (spec_hex_digit(d[2 * i]).unwrap() * 16 + spec_hex_digit(
            d[2 * i + 1],
        ).unwrap()) as u8,
    )
}

/// Relies on const_hex::decode_to_array: after an optional `0x`/`0X` marker,
/// decodes exactly 32 hex digits into 16 bytes, two digits per byte, most
/// significant first; fails on an input of odd length, on any other digit
/// count, and on any byte that is not a hex digit.
#[verifier::external_body]
fn hex_decode_digest(value: &str) -> (r: Option<[u8; 16]>)
    ensures
        r is Some <==> spec_hex_ok(encode_utf8(value@), 16),
        r matches Some(a) ==> a@ == spec_hex_bytes(spec_hex_strip(encode_utf8(value@))),
{
    match const_hex::decode_to_array(value) {
        Ok(a) => Some(a),
        Err(_) => None,
    }
}

// == Populating file entries

/// Applying one (base key, value) pair to a file accumulator: `rev` and
/// `fileSize` parse as decimal numbers, `digest` as 32 hex digits (failures
/// are fatal), `depotFile` and `action` are stored verbatim, every other key
/// is ignored.
pub open spec fn spec_populate_file(
    f: SpecInterimFile,
    key: Seq<char>,
    val: Seq<char>,
) -> Option<SpecInterimFile> {
    if key == "depotFile"@ {
        Some(SpecInterimFile { depot_path: Some(val), ..f })
    } else if key == "action"@ {
        Some(SpecInterimFile { action: Some(val), ..f })
    } else if key == "rev"@ {
        match spec_parse_u32(val) {
            Some(v) => Some(SpecInterimFile { revision: Some(v), ..f }),
            None => None,
        }
    } else if key == "fileSize"@ {
        match spec_parse_u64(val) {
            Some(v) => Some(SpecInterimFile { file_size: Some(v), ..f }),
            None => None,
        }
    } else if key == "digest"@ {
        if spec_hex_ok(encode_utf8(val), 16) {
            Some(
                SpecInterimFile {
                    digest: Some(spec_hex_bytes(spec_hex_strip(encode_utf8(val)))),
                    ..f
                },
            )
        } else {
            None
        }
    } else {
        Some(f)
    }
}

// == Reading the changelist header

/// What reading the header produces: on success the assembled changelist, the
/// suffix of the first file field (if one was reached) and the file
/// accumulator it populated; and how many triples were consumed.
#[verifier::ext_equal]
pub struct HeaderOut {
    pub result: Result<(SpecP4Changelist, Option<int>, SpecInterimFile), P4AssembleError>,
    pub consumed: int,
}

/// Reading the changelist header: plain fields populate the changelist
/// accumulator until the first key carrying a numeric suffix, which starts
/// the first file entry; the header is then finalized. A stream that ends
/// first finalizes the header with no file entry open.
pub open spec fn spec_describe_header(
    acc: SpecInterimChangelist,
    ts: Seq<SpecTriple>,
    term: Option<P4PyDictParseError>,
) -> HeaderOut
    decreases ts.len(),
{
    if ts.len() == 0 {
        match term {
            Some(e) => HeaderOut { result: Err(P4AssembleError::Parse(e)), consumed: 0 },
            None => match spec_finalize_cl(acc, Seq::empty()) {
                Ok(cl) => HeaderOut {
                    result: Ok((cl, None, spec_empty_interim_file())),
                    consumed: 0,
                },
                Err(m) => HeaderOut { result: Err(P4AssembleError::MissingField(m)), consumed: 0 },
            },
        }
    } else {
        let t = ts[0];
        if t.key == "change"@ || t.key == "time"@ || t.key == "user"@ || t.key == "desc"@ {
            match spec_populate_cl(acc, t.key, t.val) {
                Some(a2) => {
                    let o = spec_describe_header(a2, ts.drop_first(), term);
                    HeaderOut { consumed: o.consumed + 1, ..o }
                },
                None => HeaderOut { result: Err(P4AssembleError::Conversion), consumed: 1 },
            }
        } else {
            match spec_split_indexed_key(t.key) {
                Some((base, i)) => match spec_populate_file(spec_empty_interim_file(), base, t.val) {
                    Some(f2) => match spec_finalize_cl(acc, Seq::empty()) {
                        Ok(cl) => HeaderOut { result: Ok((cl, Some(i as int), f2)), consumed: 1 },
                        Err(m) => HeaderOut {
                            result: Err(P4AssembleError::MissingField(m)),
                            consumed: 1,
                        },
                    },
                    None => HeaderOut { result: Err(P4AssembleError::Conversion), consumed: 1 },
                },
                None => {
                    let o = spec_describe_header(acc, ts.drop_first(), term);
                    HeaderOut { consumed: o.consumed + 1, ..o }
                },
            }
        }
    }
}

// == Grouping file entries

/// What one call on the file assembler produces and leaves behind.
#[verifier::ext_equal]
pub struct FilesOut {
    pub result: Result<Option<SpecP4File>, P4AssembleError>,
    pub consumed: int,
    pub fidx: Option<int>,
    pub facc: SpecInterimFile,
    pub done: bool,
}

/// One call on the file assembler: every wire key must carry a numeric
/// suffix, and consecutive triples sharing a suffix populate one file entry;
/// a change of suffix finalizes and emits it; exhaustion emits the last open
/// entry, if any, and then the sequence stays terminal.
pub open spec fn spec_next_file(
    fidx: Option<int>,
    facc: SpecInterimFile,
    ts: Seq<SpecTriple>,
    term: Option<P4PyDictParseError>,
) -> FilesOut
    decreases ts.len(),
{
    if ts.len() == 0 {
        match term {
            Some(e) => FilesOut {
                result: Err(P4AssembleError::Parse(e)),
                consumed: 0,
                fidx,
                facc,
                done: true,
            },
            None => match fidx {
                Some(_) => match spec_finalize_file(facc) {
                    Ok(f) => FilesOut {
                        result: Ok(Some(f)),
                        consumed: 0,
                        fidx: None,
                        facc: spec_empty_interim_file(),
                        done: false,
                    },
                    Err(m) => FilesOut {
                        result: Err(P4AssembleError::MissingField(m)),
                        consumed: 0,
                        fidx,
                        facc,
                        done: true,
                    },
                },
                None => FilesOut {
                    result: Ok(None),
                    consumed: 0,
                    fidx: None,
                    facc,
                    done: true,
                },
            },
        }
    } else {
        let t = ts[0];
        match spec_split_indexed_key(t.key) {
            None => FilesOut {
                result: Err(P4AssembleError::UnexpectedKeyShape),
                consumed: 1,
                fidx,
                facc,
                done: true,
            },
            Some((base, i)) => {
                match fidx {
                    None => match spec_populate_file(facc, base, t.val) {
                        Some(f2) => {
                            let o = spec_next_file(Some(i as int), f2, ts.drop_first(), term);
                            FilesOut { consumed: o.consumed + 1, ..o }
                        },
                        None => FilesOut {
                            result: Err(P4AssembleError::Conversion),
                            consumed: 1,
                            fidx: Some(i as int),
                            facc,
                            done: true,
                        },
                    },
                    Some(p) => {
                        if i as int == p {
                            match spec_populate_file(facc, base, t.val) {
                                Some(f2) => {
                                    let o = spec_next_file(fidx, f2, ts.drop_first(), term);
                                    FilesOut { consumed: o.consumed + 1, ..o }
                                },
                                None => FilesOut {
                                    result: Err(P4AssembleError::Conversion),
                                    consumed: 1,
                                    fidx,
                                    facc,
                                    done: true,
                                },
                            }
                        } else {
                            match spec_finalize_file(facc) {
                                Ok(f) => match spec_populate_file(
                                    spec_empty_interim_file(),
                                    base,
                                    t.val,
                                ) {
                                    Some(f2) => FilesOut {
                                        result: Ok(Some(f)),
                                        consumed: 1,
                                        fidx: Some(i as int),
                                        facc: f2,
                                        done: false,
                                    },
                                    None => FilesOut {
                                        result: Err(P4AssembleError::Conversion),
                                        consumed: 1,
                                        fidx: Some(i as int),
                                        facc,
                                        done: true,
                                    },
                                },
                                Err(m) => FilesOut {
                                    result: Err(P4AssembleError::MissingField(m)),
                                    consumed: 1,
                                    fidx,
                                    facc,
                                    done: true,
                                },
                            }
                        }
                    },
                }
            },
        }
    }
}

/// Assembles the output of a `describe` run: a changelist header read up
/// front, then one `P4File` per numeric key suffix, pulled one at a time.
pub struct P4DescribeIterator {
    pub parser: P4PyDictParser,
    pub changelist: P4Changelist,
    pub current_file_index: Option<u32>,
    pub current_file: InterimP4File,
    pub done: bool,
}

impl P4DescribeIterator {
    /// Well-formedness between calls.
    pub open spec fn wf(self) -> bool {
        &&& self.parser.wf()
        &&& (self.current_file_index is None ==> self.current_file@ == spec_empty_interim_file())
    }

    /// Apply one (base key, value) pair to the file accumulator, exactly per
    /// `spec_populate_file`; `false` reports a fatal conversion failure.
    fn populate_field(file: &mut InterimP4File, key: &str, value: &str) -> (r: bool)
        ensures
            match spec_populate_file(old(file)@, key@, value@) {
                Some(f2) => r && final(file)@ == f2,
                None => !r && *final(file) == *old(file),
            },
    {
        if str_eq(key, "depotFile") {
            file.depot_path = Some(value.to_owned());
            true
        } else if str_eq(key, "action") {
            file.action = Some(value.to_owned());
            true
        } else if str_eq(key, "rev") {
            match crate::parse_u32(value) {
                Some(v) => {
                    file.revision = Some(v);
                    true
                },
                None => false,
            }
        } else if str_eq(key, "fileSize") {
            match crate::parse_u64(value) {
                Some(v) => {
                    file.file_size = Some(v);
                    true
                },
                None => false,
            }
        } else if str_eq(key, "digest") {
            match hex_decode_digest(value) {
                Some(d) => {
                    file.digest = Some(d);
                    true
                },
                None => false,
            }
        } else {
            true
        }
    }

    /// Read the changelist header from the byte stream `input` in the binary
    /// wire format, exactly per `spec_describe_header`: plain fields fill the
    /// changelist, the first key with a numeric suffix starts the first file
    /// entry, and the header is then finalized, failing on a missing required
    /// field, a failed conversion or a decoder error.
    pub fn new_from_reader(input: Vec<u8>) -> (r: Result<Self, P4AssembleError>)
        requires
            input@.len() <= u32::MAX as int,
        ensures
            ({
                let out = spec_describe_header(
                    spec_empty_interim_cl(),
                    spec_run_of_input(input@).0,
                    spec_run_of_input(input@).1,
                );
                match out.result {
                    Ok((cl, fidx, facc)) => {
                        &&& r matches Ok(it)
                        &&& it.wf()
                        &&& !it.done
                        &&& it.changelist@ == cl
                        &&& spec_opt_index(it.current_file_index) == fidx
                        &&& it.current_file@ == facc
                        &&& it.parser.spec_rest().0 == spec_run_of_input(input@).0.skip(
                            out.consumed,
                        )
                        &&& it.parser.spec_rest().1 == spec_run_of_input(input@).1
                    },
                    Err(e) => r matches Err(e2) && e2 == e,
                }
            }),
    {
        let mut parser = P4PyDictParser::new(input);
        let ghost ts0: Seq<SpecTriple> = parser.spec_rest().0;
        let ghost e0: Option<P4PyDictParseError> = parser.spec_rest().1;
        let ghost out0: HeaderOut = spec_describe_header(spec_empty_interim_cl(), ts0, e0);
        let mut current_change = InterimP4Changelist::default();
        let mut current_file = InterimP4File::default();
        let mut current_file_index: Option<u32> = None;
        let ghost mut k: int = 0;
        proof {
            assert(ts0.skip(0) =~= ts0);
            assert(current_change@ == spec_empty_interim_cl());
        }
        loop
            invariant
                parser.wf(),
                parser.input@ == input@,
                ts0 == spec_run_of_input(input@).0,
                e0 == spec_run_of_input(input@).1,
                out0 == spec_describe_header(spec_empty_interim_cl(), ts0, e0),
                0 <= k <= ts0.len(),
                parser.spec_rest().0 == ts0.skip(k),
                parser.spec_rest().1 == e0,
                current_file_index is None,
                current_file@ == spec_empty_interim_file(),
                current_change.files@.len() == 0,
                ({
                    let o = spec_describe_header(current_change@, ts0.skip(k), e0);
                    o.result == out0.result && k + o.consumed == out0.consumed
                }),
            decreases ts0.len() - k,
        {
            match parser.get_next_kvp() {
                Err(e) => {
                    return Err(P4AssembleError::Parse(e));
                },
                Ok(None) => {
                    match current_change.try_into() {
                        Ok(cl) => {
                            proof {
                                assert(cl@.files =~= Seq::<SpecP4File>::empty());
                            }
                            return Ok(P4DescribeIterator {
                                parser,
                                changelist: cl,
                                current_file_index: None,
                                current_file,
                                done: false,
                            });
                        },
                        Err(m) => {
                            return Err(P4AssembleError::MissingField(m));
                        },
                    }
                },
                Ok(Some(kvp)) => {
                    proof {
                        assert(ts0.skip(k).drop_first() =~= ts0.skip(k + 1));
                    }
                    let key = kvp.key.as_str();
                    if str_eq(key, "change") || str_eq(key, "time") || str_eq(key, "user")
                        || str_eq(key, "desc") {
                        if !crate::changes::P4ChangesIterator::populate_field(
                            &mut current_change,
                            key,
                            kvp.value.as_str(),
                        ) {
                            return Err(P4AssembleError::Conversion);
                        }
                        proof {
                            k = k + 1;
                        }
                    } else {
                        match split_indexed_key(key) {
                            Some((base, index)) => {
                                if !Self::populate_field(&mut current_file, base, kvp.value.as_str())
                                {
                                    return Err(P4AssembleError::Conversion);
                                }
                                match current_change.try_into() {
                                    Ok(cl) => {
                                        proof {
                                            assert(cl@.files =~= Seq::<SpecP4File>::empty());
                                        }
                                        return Ok(P4DescribeIterator {
                                            parser,
                                            changelist: cl,
                                            current_file_index: Some(index),
                                            current_file,
                                            done: false,
                                        });
                                    },
                                    Err(m) => {
                                        return Err(P4AssembleError::MissingField(m));
                                    },
                                }
                            },
                            None => {
                                proof {
                                    k = k + 1;
                                }
                            },
                        }
                    }
                },
            }
        }
    }

    /// The assembled changelist header.
    pub fn get_changelist(&self) -> (r: &P4Changelist)
        ensures
            r == self.changelist,
    {
        &self.changelist
    }

    /// The next assembled file entry, exactly per `spec_next_file` on the
    /// decoder's remaining triples: every key must carry a numeric suffix,
    /// consecutive triples sharing a suffix form one file entry, a change of
    /// suffix or clean exhaustion emits the entry, and `Ok(None)` marks
    /// exhaustion with no entry open (stable under re-calling). Errors are
    /// terminal: later calls report `Ok(None)`.
    pub fn next(&mut self) -> (r: Result<Option<P4File>, P4AssembleError>)
        requires
            old(self).wf(),
        ensures
            final(self).wf(),
            final(self).parser.input == old(self).parser.input,
            final(self).changelist == old(self).changelist,
            old(self).done ==> (r matches Ok(o) && o is None && final(self).done),
            !old(self).done ==> ({
                let out = spec_next_file(
                    spec_opt_index(old(self).current_file_index),
                    old(self).current_file@,
                    old(self).parser.spec_rest().0,
                    old(self).parser.spec_rest().1,
                );
                &&& (match out.result {
                    Ok(o) => {
                        match o {
                            Some(f) => r matches Ok(x) && x matches Some(c) && c@ == f,
                            None => r matches Ok(x) && x is None,
                        }
                    },
                    Err(e) => r matches Err(e2) && e2 == e,
                })
                &&& final(self).done == out.done
                &&& (!out.done ==> {
                    &&& spec_opt_index(final(self).current_file_index) == out.fidx
                    &&& final(self).current_file@ == out.facc
                    &&& final(self).parser.spec_rest().0 == old(self).parser.spec_rest().0.skip(
                        out.consumed,
                    )
                    &&& final(self).parser.spec_rest().1 == old(self).parser.spec_rest().1
                })
            }),
    {
        if self.done {
            return Ok(None);
        }
        let ghost ts0: Seq<SpecTriple> = self.parser.spec_rest().0;
        let ghost e0: Option<P4PyDictParseError> = self.parser.spec_rest().1;
        let ghost out0: FilesOut = spec_next_file(
            spec_opt_index(self.current_file_index),
            self.current_file@,
            ts0,
            e0,
        );
        let ghost mut k: int = 0;
        loop
            invariant
                self.wf(),
                !self.done,
                !old(self).done,
                old(self).wf(),
                self.parser.input == old(self).parser.input,
                self.changelist == old(self).changelist,
                ts0 == old(self).parser.spec_rest().0,
                e0 == old(self).parser.spec_rest().1,
                0 <= k <= ts0.len(),
                self.parser.spec_rest().0 == ts0.skip(k),
                self.parser.spec_rest().1 == e0,
                out0 == spec_next_file(
                    spec_opt_index(old(self).current_file_index),
                    old(self).current_file@,
                    ts0,
                    e0,
                ),
                ({
                    let o = spec_next_file(
                        spec_opt_index(self.current_file_index),
                        self.current_file@,
                        ts0.skip(k),
                        e0,
                    );
                    o.result == out0.result && o.fidx == out0.fidx && o.facc == out0.facc && o.done
                        == out0.done && k + o.consumed == out0.consumed
                }),
            decreases ts0.len() - k,
        {
            match self.parser.get_next_kvp() {
                Err(e) => {
                    self.done = true;
                    return Err(P4AssembleError::Parse(e));
                },
                Ok(None) => {
                    match self.current_file_index {
                        Some(_) => {
                            let mut acc = InterimP4File::default();
                            core::mem::swap(&mut acc, &mut self.current_file);
                            self.current_file_index = None;
                            match acc.try_into() {
                                Ok(f) => {
                                    return Ok(Some(f));
                                },
                                Err(m) => {
                                    self.done = true;
                                    return Err(P4AssembleError::MissingField(m));
                                },
                            }
                        },
                        None => {
                            self.done = true;
                            return Ok(None);
                        },
                    }
                },
                Ok(Some(kvp)) => {
                    proof {
                        assert(ts0.skip(k).drop_first() =~= ts0.skip(k + 1));
                    }
                    match split_indexed_key(kvp.key.as_str()) {
                        None => {
                            self.done = true;
                            return Err(P4AssembleError::UnexpectedKeyShape);
                        },
                        Some((base, index)) => {
                            let same = match self.current_file_index {
                                Some(p) => p == index,
                                None => false,
                            };
                            if same || self.current_file_index.is_none() {
                                self.current_file_index = Some(index);
                                if !Self::populate_field(
                                    &mut self.current_file,
                                    base,
                                    kvp.value.as_str(),
                                ) {
                                    self.done = true;
                                    return Err(P4AssembleError::Conversion);
                                }
                                proof {
                                    k = k + 1;
                                }
                            } else {
                                let mut acc = InterimP4File::default();
                                core::mem::swap(&mut acc, &mut self.current_file);
                                self.current_file_index = Some(index);
                                match acc.try_into() {
                                    Err(m) => {
                                        self.done = true;
                                        return Err(P4AssembleError::MissingField(m));
                                    },
                                    Ok(f) => {
                                        if !Self::populate_field(
                                            &mut self.current_file,
                                            base,
                                            kvp.value.as_str(),
                                        ) {
                                            self.done = true;
                                            return Err(P4AssembleError::Conversion);
                                        }
                                        return Ok(Some(f));
                                    },
                                }
                            }
                        },
                    }
                },
            }
        }
    }
}

} // verus!

