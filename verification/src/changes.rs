use vstd::prelude::*;
use crate::parsers::py_dict::{P4PyDictParseError, P4PyDictParser, SpecTriple};
use crate::parsers::str_eq;
use crate::{
    spec_empty_interim_cl, spec_finalize_cl, spec_opt_index, spec_parse_u32, InterimP4Changelist,
    P4AssembleError, P4Changelist, SpecInterimChangelist, SpecP4Changelist,
};

verus! {

/// Applying one triple to a changelist accumulator: `change` and `time` parse
/// as decimal numbers (a failure is fatal), `user` and `desc` are stored
/// verbatim, every other key is ignored.
pub open spec fn spec_populate_cl(
    acc: SpecInterimChangelist,
    key: Seq<char>,
    val: Seq<char>,
) -> Option<SpecInterimChangelist> {
    if key == "change"@ {
        match spec_parse_u32(val) {
            Some(v) => Some(SpecInterimChangelist { change: Some(v), ..acc }),
            None => None,
        }
    } else if key == "time"@ {
        match spec_parse_u32(val) {
            Some(v) => Some(SpecInterimChangelist { time: Some(v), ..acc }),
            None => None,
        }
    } else if key == "user"@ {
        Some(SpecInterimChangelist { user: Some(val), ..acc })
    } else if key == "desc"@ {
        Some(SpecInterimChangelist { description: Some(val), ..acc })
    } else {
        Some(acc)
    }
}

/// What one call on the assembler produces and leaves behind: its result, how
/// many triples it consumed, the accumulator state, and whether the sequence
/// has reached its stable terminal state.
#[verifier::ext_equal]
pub struct ChangesOut {
    pub result: Result<Option<SpecP4Changelist>, P4AssembleError>,
    pub consumed: int,
    pub prev: Option<int>,
    pub acc: SpecInterimChangelist,
    pub done: bool,
}

/// One call on the changelist assembler, given the triples the decoder still
/// yields (`ts`) and how the stream then ends (`term`). Consecutive triples
/// sharing a record index populate one accumulator; a change of index
/// finalizes and emits it; exhaustion emits the last open accumulator, if
/// any, and then the sequence stays terminal.
pub open spec fn spec_next_change(
    prev: Option<int>,
    acc: SpecInterimChangelist,
    ts: Seq<SpecTriple>,
    term: Option<P4PyDictParseError>,
) -> ChangesOut
    decreases ts.len(),
{
    if ts.len() == 0 {
        match term {
            Some(e) => ChangesOut {
                result: Err(P4AssembleError::Parse(e)),
                consumed: 0,
                prev,
                acc,
                done: true,
            },
            None => match prev {
                Some(_) => match spec_finalize_cl(acc, Seq::empty()) {
                    Ok(cl) => ChangesOut {
                        result: Ok(Some(cl)),
                        consumed: 0,
                        prev: None,
                        acc: spec_empty_interim_cl(),
                        done: false,
                    },
                    Err(m) => ChangesOut {
                        result: Err(P4AssembleError::MissingField(m)),
                        consumed: 0,
                        prev,
                        acc,
                        done: true,
                    },
                },
                None => ChangesOut { result: Ok(None), consumed: 0, prev: None, acc, done: true },
            },
        }
    } else {
        let t = ts[0];
        match prev {
            None => match spec_populate_cl(acc, t.key, t.val) {
                Some(a2) => {
                    let o = spec_next_change(Some(t.idx), a2, ts.drop_first(), term);
                    ChangesOut { consumed: o.consumed + 1, ..o }
                },
                None => ChangesOut {
                    result: Err(P4AssembleError::Conversion),
                    consumed: 1,
                    prev: Some(t.idx),
                    acc,
                    done: true,
                },
            },
            Some(p) => {
                if t.idx == p {
                    match spec_populate_cl(acc, t.key, t.val) {
                        Some(a2) => {
                            let o = spec_next_change(prev, a2, ts.drop_first(), term);
                            ChangesOut { consumed: o.consumed + 1, ..o }
                        },
                        None => ChangesOut {
                            result: Err(P4AssembleError::Conversion),
                            consumed: 1,
                            prev,
                            acc,
                            done: true,
                        },
                    }
                } else {
                    match spec_finalize_cl(acc, Seq::empty()) {
                        Ok(cl) => match spec_populate_cl(spec_empty_interim_cl(), t.key, t.val) {
                            Some(a2) => ChangesOut {
                                result: Ok(Some(cl)),
                                consumed: 1,
                                prev: Some(t.idx),
                                acc: a2,
                                done: false,
                            },
                            None => ChangesOut {
                                result: Err(P4AssembleError::Conversion),
                                consumed: 1,
                                prev: Some(t.idx),
                                acc,
                                done: true,
                            },
                        },
                        Err(m) => ChangesOut {
                            result: Err(P4AssembleError::MissingField(m)),
                            consumed: 1,
                            prev,
                            acc,
                            done: true,
                        },
                    }
                }
            },
        }
    }
}

/// Assembles the binary decoder's triple stream into `P4Changelist` records:
/// consecutive triples sharing a record index form one changelist.
pub struct P4ChangesIterator {
    pub parser: P4PyDictParser,
    pub previous_dict_index: Option<u32>,
    pub current_change: InterimP4Changelist,
    pub done: bool,
}

impl P4ChangesIterator {
    /// Well-formedness between calls.
    pub open spec fn wf(self) -> bool {
        &&& self.parser.wf()
        &&& (self.previous_dict_index is None ==> self.current_change@ == spec_empty_interim_cl())
        &&& self.current_change.files@.len() == 0
    }

    /// An assembler over the byte stream `input` in the binary wire format.
    pub fn new_from_reader(input: Vec<u8>) -> (r: Self)
        requires
            input@.len() <= u32::MAX as int,
        ensures
            r.wf(),
            !r.done,
            r.previous_dict_index is None,
            r.parser.input@ == input@,
            r.parser.pos == 0,
            r.parser.state is Root,
            r.parser.current_dict_index is None,
    {
        P4ChangesIterator {
            parser: P4PyDictParser::new(input),
            previous_dict_index: None,
            current_change: InterimP4Changelist::default(),
            done: false,
        }
    }

    /// Apply one key-value pair to the accumulator, exactly per
    /// `spec_populate_cl`; `false` reports a fatal conversion failure.
    pub(crate) fn populate_field(change: &mut InterimP4Changelist, key: &str, value: &str) -> (r: bool)
        ensures
            match spec_populate_cl(old(change)@, key@, value@) {
                Some(a2) => r && final(change)@ == a2 && final(change).files == old(change).files,
                None => !r && *final(change) == *old(change),
            },
    {
        if str_eq(key, "change") {
            match crate::parse_u32(value) {
                Some(v) => {
                    change.change = Some(v);
                    true
                },
                None => false,
            }
        } else if str_eq(key, "time") {
            match crate::parse_u32(value) {
                Some(v) => {
                    change.time = Some(v);
                    true
                },
                None => false,
            }
        } else if str_eq(key, "user") {
            change.user = Some(value.to_owned());
            true
        } else if str_eq(key, "desc") {
            change.description = Some(value.to_owned());
            true
        } else {
            true
        }
    }

    /// The next assembled changelist, exactly per `spec_next_change` on the
    /// decoder's remaining triples: `Ok(Some(record))` when a record boundary
    /// or clean exhaustion completes the open accumulator, `Ok(None)` once the
    /// stream is exhausted with no record open (stable under re-calling), and
    /// the first decoder error, missing required field or failed conversion
    /// otherwise. Errors are terminal: later calls report `Ok(None)`.
    pub fn next(&mut self) -> (r: Result<Option<P4Changelist>, P4AssembleError>)
        requires
            old(self).wf(),
        ensures
            final(self).wf(),
            final(self).parser.input == old(self).parser.input,
            old(self).done ==> (r matches Ok(o) && o is None && final(self).done),
            !old(self).done ==> ({
                let out = spec_next_change(
                    spec_opt_index(old(self).previous_dict_index),
                    old(self).current_change@,
                    old(self).parser.spec_rest().0,
                    old(self).parser.spec_rest().1,
                );
                &&& (match out.result {
                    Ok(o) => {
                        match o {
                            Some(cl) => r matches Ok(x) && x matches Some(c) && c@ == cl,
                            None => r matches Ok(x) && x is None,
                        }
                    },
                    Err(e) => r matches Err(e2) && e2 == e,
                })
                &&& final(self).done == out.done
                &&& (!out.done ==> {
                    &&& spec_opt_index(final(self).previous_dict_index) == out.prev
                    &&& final(self).current_change@ == out.acc
                    &&& final(self).parser.spec_rest().0 == old(self).parser.spec_rest().0.skip(
                        out.consumed,
                    )
                    &&& final(self).parser.spec_rest().1 == old(self).parser.spec_rest().1
                })
            }),
    {
        if self.done {
            return Ok(None);
        }
        let ghost ts0: Seq<SpecTriple> = self.parser.spec_rest().0;
        let ghost e0: Option<P4PyDictParseError> = self.parser.spec_rest().1;
        let ghost out0: ChangesOut = spec_next_change(
            spec_opt_index(self.previous_dict_index),
            self.current_change@,
            ts0,
            e0,
        );
        let ghost mut k: int = 0;
        loop
            invariant
                self.wf(),
                !self.done,
                !old(self).done,
                old(self).wf(),
                self.parser.input == old(self).parser.input,
                ts0 == old(self).parser.spec_rest().0,
                e0 == old(self).parser.spec_rest().1,
                0 <= k <= ts0.len(),
                self.parser.spec_rest().0 == ts0.skip(k),
                self.parser.spec_rest().1 == e0,
                out0 == spec_next_change(
                    spec_opt_index(old(self).previous_dict_index),
                    old(self).current_change@,
                    ts0,
                    e0,
                ),
                ({
                    let o = spec_next_change(
                        spec_opt_index(self.previous_dict_index),
                        self.current_change@,
                        ts0.skip(k),
                        e0,
                    );
                    o.result == out0.result && o.prev == out0.prev && o.acc == out0.acc && o.done
                        == out0.done && k + o.consumed == out0.consumed
                }),
            decreases ts0.len() - k,
        {
            match self.parser.get_next_kvp() {
                Err(e) => {
                    self.done = true;
                    return Err(P4AssembleError::Parse(e));
                },
                Ok(None) => {
                    match self.previous_dict_index {
                        Some(_) => {
                            let mut acc = InterimP4Changelist::default();
                            core::mem::swap(&mut acc, &mut self.current_change);
                            self.previous_dict_index = None;
                            match acc.try_into() {
                                Ok(cl) => {
                                    proof {
                                        assert(cl@.files =~= Seq::<crate::SpecP4File>::empty());
                                    }
                                    return Ok(Some(cl));
                                },
                                Err(m) => {
                                    self.done = true;
                                    return Err(P4AssembleError::MissingField(m));
                                },
                            }
                        },
                        None => {
                            self.done = true;
                            return Ok(None);
                        },
                    }
                },
                Ok(Some(kvp)) => {
                    proof {
                        assert(ts0.skip(k).drop_first() =~= ts0.skip(k + 1));
                    }
                    match self.previous_dict_index {
                        None => {
                            self.previous_dict_index = Some(kvp.dict_index);
                            if !Self::populate_field(
                                &mut self.current_change,
                                kvp.key.as_str(),
                                kvp.value.as_str(),
                            ) {
                                self.done = true;
                                return Err(P4AssembleError::Conversion);
                            }
                            proof {
                                k = k + 1;
                            }
                        },
                        Some(p) => {
                            if p == kvp.dict_index {
                                if !Self::populate_field(
                                    &mut self.current_change,
                                    kvp.key.as_str(),
                                    kvp.value.as_str(),
                                ) {
                                    self.done = true;
                                    return Err(P4AssembleError::Conversion);
                                }
                                proof {
                                    k = k + 1;
                                }
                            } else {
                                let mut acc = InterimP4Changelist::default();
                                core::mem::swap(&mut acc, &mut self.current_change);
                                self.previous_dict_index = Some(kvp.dict_index);
                                match acc.try_into() {
                                    Err(m) => {
                                        self.done = true;
                                        return Err(P4AssembleError::MissingField(m));
                                    },
                                    Ok(cl) => {
                                        proof {
                                            assert(cl@.files =~= Seq::<
                                                crate::SpecP4File,
                                            >::empty());
                                        }
                                        if !Self::populate_field(
                                            &mut self.current_change,
                                            kvp.key.as_str(),
                                            kvp.value.as_str(),
                                        ) {
                                            self.done = true;
                                            return Err(P4AssembleError::Conversion);
                                        }
                                        return Ok(Some(cl));
                                    },
                                }
                            }
                        },
                    }
                },
            }
        }
    }
}

} // verus!
