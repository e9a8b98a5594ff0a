use vstd::prelude::*;
use vstd::slice::{slice_subrange, slice_to_vec};
use vstd::utf8::{valid_utf8, decode_utf8, encode_utf8};
use crate::parsers::{P4KeyValuePair, P4KvpStream, utf8_to_str};

verus! {

/// Errors of the line-oriented text decoder.
#[derive(Debug, PartialEq)]
pub enum P4ZtagParseError {
    /// A field line without the fixed `... ` prefix, or without a space
    /// separating key and value.
    MalformedLine,
    /// A key or value that is not well-formed UTF-8.
    InvalidUtf8,
}

/// The decoder's state between lines. Yield states hold a completed field in
/// the line buffer; `MultiLineInternal` is still accumulating continuation
/// lines; `EmptyLine` is a record separator producing no triple.
#[derive(Debug, PartialEq, Eq, Structural, Clone, Copy)]
pub enum ZtagParseState {
    Root,
    SingleLineYield,
    MultiLineYield,
    MultiLineInternal,
    EmptyLine,
    Eof,
}

impl ZtagParseState {
    /// States at which the previous field, if any, is complete, so the next
    /// line read starts a fresh field.
    pub fn is_record_complete(&self) -> (r: bool)
        ensures
            r == (*self is Root || *self is SingleLineYield || *self is MultiLineYield
                || *self is EmptyLine),
    {
        match self {
            ZtagParseState::Root => true,
            ZtagParseState::SingleLineYield => true,
            ZtagParseState::MultiLineYield => true,
            ZtagParseState::EmptyLine => true,
            _ => false,
        }
    }

    /// States in which the line buffer holds a field ready to be yielded.
    pub fn should_yield(&self) -> (r: bool)
        ensures
            r == (*self is SingleLineYield || *self is MultiLineYield),
    {
        match self {
            ZtagParseState::SingleLineYield => true,
            ZtagParseState::MultiLineYield => true,
            _ => false,
        }
    }
}

/// The position of the first line feed of `s` at or after `pos`.
pub open spec fn spec_find_nl(s: Seq<u8>, pos: int) -> Option<int>
    decreases s.len() - pos,
    when 0 <= pos <= s.len()
{
    if pos >= s.len() {
        None
    } else if s[pos] == 10 {
        Some(pos)
    } else {
        spec_find_nl(s, pos + 1)
    }
}

/// The end of the line starting at `pos`: just past its line feed, or the end
/// of the input when no line feed follows.
pub open spec fn spec_line_end(s: Seq<u8>, pos: int) -> int {
    match spec_find_nl(s, pos) {
        Some(i) => i + 1,
        None => s.len() as int,
    }
}

/// Whether `line` carries the fixed field prefix `... `.
pub open spec fn spec_has_prefix(line: Seq<u8>) -> bool {
    line.len() >= 4 && line[0] == 46 && line[1] == 46 && line[2] == 46 && line[3] == 32
}

/// Whether `line` starts a field of the multi-line allow-list, that is with
/// `... desc `.
pub open spec fn spec_is_multiline_var(line: Seq<u8>) -> bool {
    &&& line.len() >= 9
    &&& spec_has_prefix(line)
    &&& line[4] == 100
    &&& line[5] == 101
    &&& line[6] == 115
    &&& line[7] == 99
    &&& line[8] == 32
}

/// The position of the first space of `s` at or after `pos`.
pub open spec fn spec_find_space(s: Seq<u8>, pos: int) -> Option<int>
    decreases s.len() - pos,
    when 0 <= pos <= s.len()
{
    if pos >= s.len() {
        None
    } else if s[pos] == 32 {
        Some(pos)
    } else {
        spec_find_space(s, pos + 1)
    }
}

/// Where the value of a completed field line ends: one trailing `\n` or
/// `\r\n` is stripped from the final line, and nothing else.
pub open spec fn spec_trim_end(line: Seq<u8>) -> int {
    if line.len() >= 2 && line[line.len() - 2] == 13 && line[line.len() - 1] == 10 {
        line.len() - 2
    } else if line.len() >= 1 && line[line.len() - 1] == 10 {
        line.len() - 1
    } else {
        line.len() as int
    }
}

/// Split a completed field line into its key and value: the key runs from the
/// prefix to the first space, the value from there to the trimmed end.
/// `None` when the prefix or the separating space is missing.
pub open spec fn spec_extract(line: Seq<u8>) -> Option<(Seq<u8>, Seq<u8>)> {
    if !spec_has_prefix(line) {
        None
    } else {
        match spec_find_space(line, 4) {
            None => None,
            Some(sp) => {
                let end = spec_trim_end(line);
                if sp + 1 <= end {
                    Some((line.subrange(4, sp), line.subrange(sp + 1, end)))
                } else {
                    // A space never sits inside the trailing terminator.
                    Some((line.subrange(4, sp), Seq::empty()))
                }
            },
        }
    }
}

/// The bytes held by an optional buffer.
pub open spec fn spec_opt_bytes(o: Option<Vec<u8>>) -> Option<Seq<u8>> {
    match o {
        Some(v) => Some(v@),
        None => None,
    }
}

/// The index reported on a yielded pair: the current record index, 0 before
/// the first delimiter-key sighting.
pub open spec fn spec_reported_idx(cur: Option<u32>) -> int {
    match cur {
        None => 0,
        Some(x) => x as int,
    }
}

/// The record index stored after yielding a pair with key `key`: a
/// delimiter-key sighting starts the next record, so triples after it (the
/// sighting itself included in the old record) report one more; any other key
/// leaves the index alone.
pub open spec fn spec_index_after(cur: Option<u32>, delim: Option<Seq<u8>>, key: Seq<u8>) -> Option<
    int,
> {
    if delim matches Some(d) && d == key {
        Some(spec_reported_idx(cur) + 1)
    } else {
        crate::spec_opt_index(cur)
    }
}

/// The stored index as a bound on how far the record count has advanced.
pub open spec fn spec_idx_weight(cur: Option<u32>) -> int {
    match cur {
        None => 0,
        Some(x) => x as int,
    }
}

/// A found line feed lies within the input, at or after the start.
pub proof fn lemma_find_nl_bounds(s: Seq<u8>, pos: int)
    requires
        0 <= pos <= s.len(),
    ensures
        spec_find_nl(s, pos) matches Some(i) ==> pos <= i < s.len() && s[i] == 10,
    decreases s.len() - pos,
{
    if pos < s.len() && s[pos] != 10 {
        lemma_find_nl_bounds(s, pos + 1);
    }
}

/// A line occupies at least one byte and ends within the input.
pub proof fn lemma_line_end_bounds(s: Seq<u8>, pos: int)
    requires
        0 <= pos <= s.len(),
    ensures
        pos <= spec_line_end(s, pos) <= s.len(),
        pos < s.len() ==> pos < spec_line_end(s, pos),
{
    lemma_find_nl_bounds(s, pos);
}

/// The outcome of pulling once on the text stream: a completed field line to
/// split, with the configuration left behind, or clean exhaustion.
pub enum ZtagPull {
    Yield { line: Seq<u8>, pos: int, state: ZtagParseState, pending: Option<Seq<u8>> },
    End,
}

/// One pull of the text decoder from configuration (`pos`, `state`, current
/// accumulation `line`, buffered lookahead `pending`): a held lookahead line
/// is consumed first; at a record boundary a fresh line is read and
/// classified (blank lines yield nothing); inside a multi-line field,
/// non-prefixed lines are appended until a prefixed lookahead (buffered as
/// pending) or the end of the input completes the field.
pub open spec fn spec_zpull(
    s: Seq<u8>,
    pos: int,
    state: ZtagParseState,
    line: Seq<u8>,
    pending: Option<Seq<u8>>,
) -> ZtagPull
    decreases s.len() - pos, (if pending is Some { 1int } else { 0int }),
    when 0 <= pos <= s.len()
    via spec_zpull_decreases
{
    if state is Eof {
        ZtagPull::End
    } else if pending is Some {
        let p = pending.unwrap();
        if spec_is_multiline_var(p) {
            spec_zpull(s, pos, ZtagParseState::MultiLineInternal, p, None)
        } else {
            ZtagPull::Yield { line: p, pos, state: ZtagParseState::SingleLineYield, pending: None }
        }
    } else if state is MultiLineInternal {
        if pos == s.len() {
            ZtagPull::Yield { line, pos, state: ZtagParseState::MultiLineYield, pending: None }
        } else {
            let e = spec_line_end(s, pos);
            let l = s.subrange(pos, e);
            if spec_has_prefix(l) {
                ZtagPull::Yield { line, pos: e, state: ZtagParseState::MultiLineYield, pending: Some(l) }
            } else {
                spec_zpull(s, e, ZtagParseState::MultiLineInternal, line + l, None)
            }
        }
    } else {
        // A record boundary: read one fresh line.
        if pos == s.len() {
            ZtagPull::End
        } else {
            let e = spec_line_end(s, pos);
            let l = s.subrange(pos, e);
            if l.len() == 1 && l[0] == 10 {
                spec_zpull(s, e, ZtagParseState::EmptyLine, l, None)
            } else if spec_is_multiline_var(l) {
                spec_zpull(s, e, ZtagParseState::MultiLineInternal, l, None)
            } else {
                ZtagPull::Yield { line: l, pos: e, state: ZtagParseState::SingleLineYield, pending: None }
            }
        }
    }
}

#[via_fn]
proof fn spec_zpull_decreases(
    s: Seq<u8>,
    pos: int,
    state: ZtagParseState,
    line: Seq<u8>,
    pending: Option<Seq<u8>>,
) {
    if 0 <= pos <= s.len() {
        lemma_line_end_bounds(s, pos);
    }
}

// == Delimiter indexing
//
// Under a configured delimiter key, the reported record index is exactly the
// number of delimiter-key triples yielded so far.

/// How many of the first `i` keys are the delimiter key `d`.
pub open spec fn spec_delim_count(keys: Seq<Seq<u8>>, d: Seq<u8>, i: int) -> int
    decreases i,
{
    if i <= 0 {
        0
    } else {
        spec_delim_count(keys, d, i - 1) + (if keys[i - 1] == d {
            1int
        } else {
            0int
        })
    }
}

/// Whether a stored index stands for `c` delimiter sightings.
pub open spec fn spec_index_counts(cur: Option<u32>, c: int) -> bool {
    crate::spec_opt_index(cur) == (if c == 0 {
        None::<int>
    } else {
        Some(c)
    })
}

/// With no sighting among the first `i` keys, the count is 0.
proof fn lemma_count_zero(keys: Seq<Seq<u8>>, d: Seq<u8>, i: int)
    requires
        0 <= i,
        forall|j: int| 0 <= j < i ==> keys[j] != d,
    ensures
        spec_delim_count(keys, d, i) == 0,
    decreases i,
{
    if i > 0 {
        lemma_count_zero(keys, d, i - 1);
    }
}

/// Law: under a configured delimiter key, the index reported on the `i`-th
/// yielded triple equals the number of delimiter-key triples among the first
/// `i`. In particular every triple preceding the first sighting reports 0,
/// and the index steps by one exactly at each delimiter-key triple, taking
/// effect on the triples after the sighting.
pub proof fn lemma_delimiter_indexing(cur: Option<u32>, keys: Seq<Seq<u8>>, d: Seq<u8>, i: int)
    requires
        0 <= i < keys.len(),
        spec_index_counts(cur, spec_delim_count(keys, d, i)),
    ensures
        spec_reported_idx(cur) == spec_delim_count(keys, d, i),
        (forall|j: int| 0 <= j < i ==> keys[j] != d) ==> spec_reported_idx(cur) == 0,
        spec_index_after(cur, Some(d), keys[i]) == (if spec_delim_count(keys, d, i + 1) == 0 {
            None::<int>
        } else {
            Some(spec_delim_count(keys, d, i + 1))
        }),
{
    if forall|j: int| 0 <= j < i ==> keys[j] != d {
        lemma_count_zero(keys, d, i);
    }
    if keys[i] == d && spec_delim_count(keys, d, i) == 0 {
        lemma_count_nonneg(keys, d, i);
    }
}

/// The sighting count never goes negative.
proof fn lemma_count_nonneg(keys: Seq<Seq<u8>>, d: Seq<u8>, i: int)
    requires
        0 <= i,
    ensures
        spec_delim_count(keys, d, i) >= 0,
    decreases i,
{
    if i > 0 {
        lemma_count_nonneg(keys, d, i - 1);
    }
}

// == The shape of a multi-line field
//
// A multi-line `desc` field carries a text that was split into `\n`-terminated
// lines; decoding joins the continuation lines back with `\n` and strips only
// the final terminator, reproducing the text exactly.

/// The bytes `... desc ` introducing a multi-line field.
pub open spec fn spec_desc_prefix() -> Seq<u8> {
    seq![46u8, 46u8, 46u8, 32u8, 100u8, 101u8, 115u8, 99u8, 32u8]
}

/// The continuation lines on the wire, each `\n`-terminated.
pub open spec fn enc_cont_lines(conts: Seq<Seq<u8>>) -> Seq<u8>
    decreases conts.len(),
{
    if conts.len() == 0 {
        Seq::empty()
    } else {
        conts[0] + seq![10u8] + enc_cont_lines(conts.drop_first())
    }
}

/// One whole multi-line field on the wire: the field line holding the first
/// text line, then the continuation lines.
pub open spec fn enc_multiline_field(first: Seq<u8>, conts: Seq<Seq<u8>>) -> Seq<u8> {
    spec_desc_prefix() + first + seq![10u8] + enc_cont_lines(conts)
}

/// The text's remaining lines joined back with `\n`.
pub open spec fn nl_join_tail(conts: Seq<Seq<u8>>) -> Seq<u8>
    decreases conts.len(),
{
    if conts.len() == 0 {
        Seq::empty()
    } else {
        seq![10u8] + conts[0] + nl_join_tail(conts.drop_first())
    }
}

/// A line of the text: free of line feeds and carriage returns.
pub open spec fn plain_line(l: Seq<u8>) -> bool {
    forall|i: int| 0 <= i < l.len() ==> l[i] != 10 && (#[trigger] l[i]) != 13
}

/// A continuation line: plain, and not mistakable for a field line.
pub open spec fn cont_line_ok(l: Seq<u8>) -> bool {
    plain_line(l) && !spec_has_prefix(l + seq![10u8])
}

/// The first line feed at or after `pos` sits exactly at `end` when the bytes
/// before it are not line feeds.
proof fn lemma_find_nl_at(s: Seq<u8>, pos: int, end: int)
    requires
        0 <= pos <= end < s.len(),
        forall|j: int| pos <= j < end ==> s[j] != 10,
        s[end] == 10,
    ensures
        spec_find_nl(s, pos) == Some(end),
    decreases end - pos,
{
    if pos < end {
        lemma_find_nl_at(s, pos + 1, end);
    }
}

/// Accumulating continuation lines appends them, terminators included, until
/// the input ends.
proof fn lemma_ml_accumulate(s: Seq<u8>, pos: int, line: Seq<u8>, conts: Seq<Seq<u8>>)
    requires
        0 <= pos <= s.len(),
        s.subrange(pos, s.len() as int) == enc_cont_lines(conts),
        forall|i: int| 0 <= i < conts.len() ==> cont_line_ok(#[trigger] conts[i]),
    ensures
        spec_zpull(s, pos, ZtagParseState::MultiLineInternal, line, None) == (ZtagPull::Yield {
            line: line + enc_cont_lines(conts),
            pos: s.len() as int,
            state: ZtagParseState::MultiLineYield,
            pending: None,
        }),
    decreases conts.len(),
{
    if conts.len() == 0 {
        assert(pos == s.len());
        assert(line + enc_cont_lines(conts) =~= line);
    } else {
        let c0 = conts[0];
        let nl = pos + c0.len();
        assert forall|j: int| pos <= j < nl implies s[j] != 10 by {
            assert(s.subrange(pos, s.len() as int)[j - pos] == s[j]);
            assert(enc_cont_lines(conts)[j - pos] == c0[j - pos]);
        }
        assert(s.subrange(pos, s.len() as int)[c0.len() as int] == s[nl]);
        assert(enc_cont_lines(conts)[c0.len() as int] == 10);
        lemma_find_nl_at(s, pos, nl);
        let e = nl + 1;
        assert(spec_line_end(s, pos) == e);
        let l = s.subrange(pos, e);
        assert(l =~= c0 + seq![10u8]);
        assert(!spec_has_prefix(l));
        assert forall|i: int| 0 <= i < s.len() - e implies s.subrange(e, s.len() as int)[i]
            == enc_cont_lines(conts.drop_first())[i] by {
            assert(s.subrange(pos, s.len() as int)[e - pos + i] == s[e + i]);
            assert(enc_cont_lines(conts)[c0.len() + 1 + i] == enc_cont_lines(
                conts.drop_first(),
            )[i]);
        }
        assert(s.subrange(e, s.len() as int) =~= enc_cont_lines(conts.drop_first()));
        lemma_ml_accumulate(s, e, line + l, conts.drop_first());
        assert((line + l) + enc_cont_lines(conts.drop_first()) =~= line + enc_cont_lines(conts));
    }
}

/// No byte of the joined text is a carriage return.
proof fn lemma_join_no_cr(conts: Seq<Seq<u8>>)
    requires
        forall|i: int| 0 <= i < conts.len() ==> plain_line(#[trigger] conts[i]),
    ensures
        forall|i: int| 0 <= i < nl_join_tail(conts).len() ==> (#[trigger] nl_join_tail(
            conts,
        )[i]) != 13,
    decreases conts.len(),
{
    if conts.len() > 0 {
        lemma_join_no_cr(conts.drop_first());
        assert forall|i: int| 0 <= i < nl_join_tail(conts).len() implies (#[trigger] nl_join_tail(
            conts,
        )[i]) != 13 by {
            let c0 = conts[0];
            assert(plain_line(conts[0]));
            if i == 0 {
            } else if i < 1 + c0.len() {
                assert(nl_join_tail(conts)[i] == c0[i - 1]);
            } else {
                assert(nl_join_tail(conts)[i] == nl_join_tail(conts.drop_first())[i - 1
                    - c0.len()]);
            }
        }
    }
}

/// Moving the line feed across the join: the wire's terminated lines are the
/// joined text followed by one final terminator.
proof fn lemma_join_shift(conts: Seq<Seq<u8>>)
    ensures
        seq![10u8] + enc_cont_lines(conts) =~= nl_join_tail(conts) + seq![10u8],
    decreases conts.len(),
{
    if conts.len() > 0 {
        lemma_join_shift(conts.drop_first());
        assert(seq![10u8] + enc_cont_lines(conts) =~= seq![10u8] + conts[0] + (nl_join_tail(
            conts.drop_first(),
        ) + seq![10u8]));
    }
}

/// Law: multi-line accumulation is idempotent under line-splitting. A text
/// split into a first line and `\n`-terminated continuation lines and sent as
/// one `desc` field decodes to exactly the original text: continuation lines
/// are joined back with `\n`, internal breaks are preserved verbatim, and
/// only the final trailing terminator is stripped.
pub proof fn lemma_multiline_round_trip(first: Seq<u8>, conts: Seq<Seq<u8>>)
    requires
        plain_line(first),
        forall|i: int| 0 <= i < conts.len() ==> cont_line_ok(#[trigger] conts[i]),
    ensures
        ({
            let s = enc_multiline_field(first, conts);
            spec_zpull(s, 0, ZtagParseState::Root, Seq::empty(), None) matches ZtagPull::Yield {
                line,
                pos,
                state,
                pending,
            } && pending is None && pos == s.len() && spec_extract(line) == Some(
                (seq![100u8, 101u8, 115u8, 99u8], first + nl_join_tail(conts)),
            )
        }),
{
    let s = enc_multiline_field(first, conts);
    let e0: int = 9 + first.len() as int + 1;
    // The field line runs to the first line feed, just past the first text line.
    assert forall|j: int| 0 <= j < 9 + first.len() as int implies s[j] != 10 by {
        if j < 9 {
            assert(s[j] == spec_desc_prefix()[j]);
        } else {
            assert(s[j] == first[j - 9]);
        }
    }
    assert(s[9 + first.len() as int] == 10);
    lemma_find_nl_at(s, 0, 9 + first.len() as int);
    assert(spec_line_end(s, 0) == e0);
    let l0 = s.subrange(0, e0);
    assert(l0 =~= spec_desc_prefix() + first + seq![10u8]);
    assert(spec_is_multiline_var(l0));
    assert(!(l0.len() == 1 && l0[0] == 10));
    assert(s.subrange(e0, s.len() as int) =~= enc_cont_lines(conts));
    lemma_ml_accumulate(s, e0, l0, conts);
    let line = l0 + enc_cont_lines(conts);
    assert(spec_zpull(s, 0, ZtagParseState::Root, Seq::empty(), None) == (ZtagPull::Yield {
        line,
        pos: s.len() as int,
        state: ZtagParseState::MultiLineYield,
        pending: None,
    }));
    // Extraction: the key is `desc`, the value everything after the space,
    // with the final terminator stripped.
    assert(spec_has_prefix(line));
    assert(line[4] == 100 && line[5] == 101 && line[6] == 115 && line[7] == 99 && line[8] == 32);
    assert(spec_find_space(line, 4) == Some(8int)) by {
        reveal_with_fuel(spec_find_space, 6);
    }
    lemma_join_shift(conts);
    let text = first + nl_join_tail(conts);
    assert((first + nl_join_tail(conts)) + seq![10u8] =~= first + (nl_join_tail(conts) + seq![
        10u8,
    ]));
    assert(text + seq![10u8] =~= first + (seq![10u8] + enc_cont_lines(conts)));
    assert(line =~= spec_desc_prefix() + (first + (seq![10u8] + enc_cont_lines(conts))));
    assert(line =~= spec_desc_prefix() + (text + seq![10u8]));
    lemma_join_no_cr(conts);
    assert(line.len() >= 10);
    assert(line[line.len() - 1] == 10);
    if text.len() > 0 {
        assert(line[line.len() - 2] == text[text.len() - 1]);
        assert(text[text.len() - 1] != 13);
    } else {
        assert(line[line.len() - 2] == 32);
    }
    assert(spec_trim_end(line) == line.len() - 1);
    assert(line.subrange(4, 8) =~= seq![100u8, 101u8, 115u8, 99u8]);
    assert(line.subrange(9, line.len() - 1) =~= text);
}

/// Streaming decoder of the line-oriented, prefix-delimited text wire format,
/// pulled one key-value pair at a time. Record indices come from sightings of
/// the configured delimiter key, not from blank lines.
pub struct P4ZtagParser {
    pub input: Vec<u8>,
    pub pos: usize,
    pub state: ZtagParseState,
    pub current_dict_index: Option<u32>,
    pub line_buffer: Vec<u8>,
    pub pending_line_buffer: Option<Vec<u8>>,
    pub dict_delimiter_key: Option<Vec<u8>>,
}

impl P4ZtagParser {
    /// Basic well-formedness, preserved through every state.
    pub open spec fn zinv(self) -> bool {
        &&& self.pos as int <= self.input@.len()
        &&& self.input@.len() <= u32::MAX as int
        &&& spec_idx_weight(self.current_dict_index) + (if self.pending_line_buffer is Some {
            1int
        } else {
            0int
        }) <= self.pos as int
        &&& (self.state is MultiLineInternal ==> spec_idx_weight(self.current_dict_index) + 1
            <= self.pos as int)
        &&& (self.state is Eof ==> self.pending_line_buffer is None)
    }

    /// Well-formedness at rest, between two pulls.
    pub open spec fn wf(self) -> bool {
        &&& self.zinv()
        &&& (self.state is Root || self.state is SingleLineYield || self.state is MultiLineYield
            || self.state is Eof)
    }

    /// What the next pull on this decoder must produce.
    pub open spec fn zmodel(self) -> ZtagPull {
        spec_zpull(
            self.input@,
            self.pos as int,
            self.state,
            self.line_buffer@,
            spec_opt_bytes(self.pending_line_buffer),
        )
    }

    /// A decoder positioned at the start of `input`. Triples report index 0
    /// until a field named `dict_delimiter_key` is seen; each sighting of
    /// that key starts a new record.
    pub fn new(input: Vec<u8>, dict_delimiter_key: Option<&str>) -> (r: Self)
        requires
            input@.len() <= u32::MAX as int,
        ensures
            r.wf(),
            r.input@ == input@,
            r.pos == 0,
            r.state is Root,
            r.current_dict_index is None,
            r.pending_line_buffer is None,
            match dict_delimiter_key {
                Some(d) => r.dict_delimiter_key matches Some(v) && v@ == encode_utf8(d@),
                None => r.dict_delimiter_key is None,
            },
    {
        let delim: Option<Vec<u8>> = match dict_delimiter_key {
            Some(d) => Some(d.as_bytes_vec()),
            None => None,
        };
        P4ZtagParser {
            input,
            pos: 0,
            state: ZtagParseState::Root,
            current_dict_index: None,
            line_buffer: Vec::new(),
            pending_line_buffer: None,
            dict_delimiter_key: delim,
        }
    }

    /// The end of the line starting at `start`, exactly per `spec_line_end`.
    fn line_end(input: &Vec<u8>, start: usize) -> (e: usize)
        requires
            start as int <= input@.len(),
        ensures
            e as int == spec_line_end(input@, start as int),
            start <= e,
            e as int <= input@.len(),
            (start as int) < input@.len() ==> start < e,
    {
        let n = input.len();
        let mut i: usize = start;
        while i < n
            invariant
                start <= i <= n,
                n == input@.len(),
                spec_find_nl(input@, start as int) == spec_find_nl(input@, i as int),
            decreases n - i,
        {
            if input[i] == 10 {
                return i + 1;
            }
            i = i + 1;
        }
        n
    }

    /// Whether `line` carries the `... ` field prefix.
    fn has_prefix(line: &Vec<u8>) -> (r: bool)
        ensures
            r == spec_has_prefix(line@),
    {
        line.len() >= 4 && line[0] == 46 && line[1] == 46 && line[2] == 46 && line[3] == 32
    }

    /// Whether `line` starts a multi-line field (the allow-list holds the
    /// single key `desc`).
    fn is_multiline_var(line: &Vec<u8>) -> (r: bool)
        ensures
            r == spec_is_multiline_var(line@),
    {
        line.len() >= 9 && line[0] == 46 && line[1] == 46 && line[2] == 46 && line[3] == 32
            && line[4] == 100 && line[5] == 101 && line[6] == 115 && line[7] == 99 && line[8]
            == 32
    }

    /// Split the completed field in `line_buffer` into key and value bytes,
    /// exactly per `spec_extract`; a missing prefix or separating space is a
    /// malformed line.
    fn get_kvp_refs(line_buffer: &Vec<u8>) -> (r: Result<(Vec<u8>, Vec<u8>), P4ZtagParseError>)
        ensures
            match spec_extract(line_buffer@) {
                Some((k, v)) => r matches Ok(p) && p.0@ == k && p.1@ == v,
                None => r matches Err(e) && e == P4ZtagParseError::MalformedLine,
            },
    {
        if !Self::has_prefix(line_buffer) {
            return Err(P4ZtagParseError::MalformedLine);
        }
        let n = line_buffer.len();
        let mut i: usize = 4;
        while i < n
            invariant
                4 <= i <= n,
                n == line_buffer@.len(),
                spec_has_prefix(line_buffer@),
                spec_find_space(line_buffer@, 4) == spec_find_space(line_buffer@, i as int),
            decreases n - i,
        {
            if line_buffer[i] == 32 {
                // The space sits before any trailing terminator bytes.
                let end = if n >= 2 && line_buffer[n - 2] == 13 && line_buffer[n - 1] == 10 {
                    n - 2
                } else if n >= 1 && line_buffer[n - 1] == 10 {
                    n - 1
                } else {
                    n
                };
                assert(i + 1 <= end);
                let key = slice_to_vec(slice_subrange(line_buffer.as_slice(), 4, i));
                let value = slice_to_vec(slice_subrange(line_buffer.as_slice(), i + 1, end));
                return Ok((key, value));
            }
            i = i + 1;
        }
        Err(P4ZtagParseError::MalformedLine)
    }

    /// Drive the state machine by one line: consume a held lookahead line, or
    /// read a fresh line at a record boundary, or extend or finish the
    /// multi-line field under accumulation. Returns the new state, which is
    /// also stored.
    fn advance(&mut self) -> (r: ZtagParseState)
        requires
            old(self).zinv(),
            !(old(self).state is Eof),
        ensures
            final(self).zinv(),
            final(self).input == old(self).input,
            final(self).dict_delimiter_key == old(self).dict_delimiter_key,
            final(self).current_dict_index == old(self).current_dict_index,
            final(self).state == r,
            final(self).pos >= old(self).pos,
            match r {
                ZtagParseState::Eof => old(self).zmodel() == ZtagPull::End,
                ZtagParseState::SingleLineYield | ZtagParseState::MultiLineYield => {
                    &&& old(self).zmodel() matches ZtagPull::Yield { line, pos, state, pending }
                        && final(self).line_buffer@ == line
                        && final(self).pos as int == pos
                        && r == state
                        && spec_opt_bytes(final(self).pending_line_buffer) == pending
                    &&& spec_idx_weight(final(self).current_dict_index) + (if final(self).pending_line_buffer is Some {
                        1int
                    } else {
                        0int
                    }) + 1 <= final(self).pos as int
                },
                _ => final(self).zmodel() == old(self).zmodel()
                    && final(self).pending_line_buffer is None
                    && (final(self).pos > old(self).pos
                    || (final(self).pos == old(self).pos && old(self).pending_line_buffer is Some
                        && final(self).pending_line_buffer is None)),
            },
    {
        let pending = self.pending_line_buffer.take();
        match pending {
            Some(p) => {
                self.line_buffer = p;
                if Self::is_multiline_var(&self.line_buffer) {
                    self.state = ZtagParseState::MultiLineInternal;
                } else {
                    self.state = ZtagParseState::SingleLineYield;
                }
                self.state
            },
            None => {
                if self.state.is_record_complete() {
                    if self.pos == self.input.len() {
                        self.state = ZtagParseState::Eof;
                        return ZtagParseState::Eof;
                    }
                    let e = Self::line_end(&self.input, self.pos);
                    let l = slice_to_vec(slice_subrange(self.input.as_slice(), self.pos, e));
                    self.line_buffer = l;
                    self.pos = e;
                    if self.line_buffer.len() == 1 && self.line_buffer[0] == 10 {
                        self.state = ZtagParseState::EmptyLine;
                    } else if Self::is_multiline_var(&self.line_buffer) {
                        self.state = ZtagParseState::MultiLineInternal;
                    } else {
                        self.state = ZtagParseState::SingleLineYield;
                    }
                    self.state
                } else {
                    // Accumulating a multi-line field: one line of lookahead.
                    if self.pos == self.input.len() {
                        self.state = ZtagParseState::MultiLineYield;
                        return ZtagParseState::MultiLineYield;
                    }
                    let e = Self::line_end(&self.input, self.pos);
                    let mut l = slice_to_vec(slice_subrange(self.input.as_slice(), self.pos, e));
                    self.pos = e;
                    if Self::has_prefix(&l) {
                        self.pending_line_buffer = Some(l);
                        self.state = ZtagParseState::MultiLineYield;
                    } else {
                        self.line_buffer.append(&mut l);
                        self.state = ZtagParseState::MultiLineInternal;
                    }
                    self.state
                }
            },
        }
    }

    /// Compare two byte strings.
    fn bytes_eq(a: &[u8], b: &[u8]) -> (r: bool)
        ensures
            r == (a@ == b@),
    {
        if a.len() != b.len() {
            return false;
        }
        let n = a.len();
        let mut i: usize = 0;
        while i < n
            invariant
                0 <= i <= n,
                n == a@.len(),
                n == b@.len(),
                forall|j: int| 0 <= j < i ==> a@[j] == b@[j],
            decreases n - i,
        {
            if a[i] != b[i] {
                return false;
            }
            i = i + 1;
        }
        proof {
            assert(a@ =~= b@);
        }
        true
    }

    /// Pull the next key-value pair. Exactly per `zmodel`: the next completed
    /// field of the grammar is split into key and value and reported under the
    /// current record index (0 before the first delimiter-key sighting); a
    /// delimiter-key sighting starts the next record for the triples after
    /// it. `Ok(None)` marks clean exhaustion and is stable under re-pulling. A missing prefix or space, or a key or value that is not
    /// UTF-8, is a terminal error: later pulls report exhaustion.
    pub fn get_next_kvp(&mut self) -> (r: Result<Option<P4KeyValuePair>, P4ZtagParseError>)
        requires
            old(self).wf(),
        ensures
            final(self).wf(),
            final(self).input == old(self).input,
            final(self).dict_delimiter_key == old(self).dict_delimiter_key,
            match old(self).zmodel() {
                ZtagPull::End => r matches Ok(o) && o is None && final(self).state is Eof,
                ZtagPull::Yield { line, pos, state, pending } => match spec_extract(line) {
                    None => r matches Err(e) && e == P4ZtagParseError::MalformedLine
                        && final(self).state is Eof,
                    Some((k, v)) => {
                        let after = spec_index_after(
                            old(self).current_dict_index,
                            spec_opt_bytes(old(self).dict_delimiter_key),
                            k,
                        );
                        if valid_utf8(k) && valid_utf8(v) {
                            &&& r matches Ok(o) && o matches Some(kvp)
                                && kvp.key@ == decode_utf8(k)
                                && kvp.value@ == decode_utf8(v)
                                && kvp.dict_index as int == spec_reported_idx(
                                old(self).current_dict_index,
                            )
                            &&& final(self).pos as int == pos
                            &&& final(self).state == state
                            &&& spec_opt_bytes(final(self).pending_line_buffer) == pending
                            &&& final(self).line_buffer@ == line
                            &&& crate::spec_opt_index(final(self).current_dict_index) == after
                        } else {
                            r matches Err(e) && e == P4ZtagParseError::InvalidUtf8
                                && final(self).state is Eof
                        }
                    },
                },
            },
    {
        loop
            invariant
                self.zinv(),
                self.input == old(self).input,
                self.dict_delimiter_key == old(self).dict_delimiter_key,
                self.current_dict_index == old(self).current_dict_index,
                self.zmodel() == old(self).zmodel(),
            decreases self.input@.len() - self.pos as int + (if self.pending_line_buffer
                is Some {
                1int
            } else {
                0int
            }) + (if self.state is Eof {
                0int
            } else {
                1int
            }),
        {
            if self.state == ZtagParseState::Eof {
                return Ok(None);
            }
            let st = self.advance();
            if st.should_yield() {
                match Self::get_kvp_refs(&self.line_buffer) {
                    Err(e) => {
                        self.state = ZtagParseState::Eof;
                        self.pending_line_buffer = None;
                        return Err(e);
                    },
                    Ok((kb, vb)) => {
                        match utf8_to_str(kb.as_slice()) {
                            None => {
                                self.state = ZtagParseState::Eof;
                                self.pending_line_buffer = None;
                                return Err(P4ZtagParseError::InvalidUtf8);
                            },
                            Some(ks) => {
                                let key_string = ks.to_owned();
                                match utf8_to_str(vb.as_slice()) {
                                    None => {
                                        self.state = ZtagParseState::Eof;
                                        self.pending_line_buffer = None;
                                        return Err(P4ZtagParseError::InvalidUtf8);
                                    },
                                    Some(vs) => {
                                        let value_string = vs.to_owned();
                                        let is_delim = match &self.dict_delimiter_key {
                                            Some(d) => Self::bytes_eq(d.as_slice(), kb.as_slice()),
                                            None => false,
                                        };
                                        let reported = self.current_dict_index.unwrap_or(0);
                                        if is_delim {
                                            self.current_dict_index = Some(reported + 1);
                                        }
                                        return Ok(Some(P4KeyValuePair {
                                            dict_index: reported,
                                            key: key_string,
                                            value: value_string,
                                        }));
                                    },
                                }
                            },
                        }
                    },
                }
            }
        }
    }
}

impl P4KvpStream<P4ZtagParseError> for P4ZtagParser {
    open spec fn ready(&self) -> bool {
        self.wf()
    }

    fn get_next_kvp(&mut self) -> (r: Result<Option<P4KeyValuePair>, P4ZtagParseError>) {
        self.get_next_kvp()
    }
}

} // verus!
