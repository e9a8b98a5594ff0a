//! Decoders for the two tagged output wire formats of the p4 command-line
//! tool — a binary, length-prefixed dictionary format and a line-oriented,
//! prefix-delimited text format — and assemblers turning their common
//! key-value triple stream into typed changelist and file records. Each
//! decoder and assembler carries a contract pinning its behaviour to a
//! mathematical model of the wire grammar, stated over byte sequences.

pub mod changes;
pub mod describe;
pub mod parsers;

use vstd::prelude::*;
use vstd::string::StrSliceExecFns;

verus! {

/// A submitted changelist assembled from a decoded key-value stream.
#[derive(Debug, PartialEq)]
pub struct P4Changelist {
    pub changelist: u32,
    pub time: u32,
    pub user: String,
    pub description: String,
    pub files: Vec<P4File>,
}

/// One file revision belonging to a changelist.
#[derive(Debug, PartialEq)]
pub struct P4File {
    pub depot_path: String,
    pub action: String,
    pub revision: u32,
    pub file_size: u64,
    pub digest: [u8; 16],
}

/// The mathematical value of a `P4File`: texts as character sequences, the
/// digest as a byte sequence.
#[verifier::ext_equal]
pub struct SpecP4File {
    pub depot_path: Seq<char>,
    pub action: Seq<char>,
    pub revision: u32,
    pub file_size: u64,
    pub digest: Seq<u8>,
}

/// The mathematical value of a `P4Changelist`.
#[verifier::ext_equal]
pub struct SpecP4Changelist {
    pub changelist: u32,
    pub time: u32,
    pub user: Seq<char>,
    pub description: Seq<char>,
    pub files: Seq<SpecP4File>,
}

impl View for P4File {
    type V = SpecP4File;

    open spec fn view(&self) -> SpecP4File {
        SpecP4File {
            depot_path: self.depot_path@,
            action: self.action@,
            revision: self.revision,
            file_size: self.file_size,
            digest: self.digest@,
        }
    }
}

impl View for P4Changelist {
    type V = SpecP4Changelist;

    open spec fn view(&self) -> SpecP4Changelist {
        SpecP4Changelist {
            changelist: self.changelist,
            time: self.time,
            user: self.user@,
            description: self.description@,
            files: self.files@.map_values(|f: P4File| f@),
        }
    }
}

/// Errors raised while assembling typed records from a key-value stream.
#[derive(Debug, PartialEq)]
pub enum P4AssembleError {
    /// The underlying binary decoder failed.
    Parse(crate::parsers::py_dict::P4PyDictParseError),
    /// A record was finalized while a required field was still unset;
    /// carries the name of the first missing field.
    MissingField(&'static str),
    /// A field value failed integer or digest decoding.
    Conversion,
    /// A key that must carry a numeric suffix did not.
    UnexpectedKeyShape,
}

/// A changelist under construction: every field stays optional until the
/// matching key has been observed in the stream.
#[derive(Debug)]
pub struct InterimP4Changelist {
    pub change: Option<u32>,
    pub time: Option<u32>,
    pub user: Option<String>,
    pub description: Option<String>,
    pub files: Vec<P4File>,
}

/// A file entry under construction, mirroring `P4File` field for field.
#[derive(Debug)]
pub struct InterimP4File {
    pub depot_path: Option<String>,
    pub action: Option<String>,
    pub revision: Option<u32>,
    pub file_size: Option<u64>,
    pub digest: Option<[u8; 16]>,
}

/// The mathematical value of an `InterimP4Changelist` (the file list is
/// tracked separately).
#[verifier::ext_equal]
pub struct SpecInterimChangelist {
    pub change: Option<u32>,
    pub time: Option<u32>,
    pub user: Option<Seq<char>>,
    pub description: Option<Seq<char>>,
}

/// The mathematical value of an `InterimP4File`.
#[verifier::ext_equal]
pub struct SpecInterimFile {
    pub depot_path: Option<Seq<char>>,
    pub action: Option<Seq<char>>,
    pub revision: Option<u32>,
    pub file_size: Option<u64>,
    pub digest: Option<Seq<u8>>,
}

/// An optional record index widened to `int`.
pub open spec fn spec_opt_index(o: Option<u32>) -> Option<int> {
    match o {
        Some(v) => Some(v as int),
        None => None,
    }
}

/// The accumulator with no field observed.
pub open spec fn spec_empty_interim_cl() -> SpecInterimChangelist {
    SpecInterimChangelist { change: None, time: None, user: None, description: None }
}

/// The file accumulator with no field observed.
pub open spec fn spec_empty_interim_file() -> SpecInterimFile {
    SpecInterimFile { depot_path: None, action: None, revision: None, file_size: None, digest: None }
}

impl View for InterimP4Changelist {
    type V = SpecInterimChangelist;

    open spec fn view(&self) -> SpecInterimChangelist {
        SpecInterimChangelist {
            change: self.change,
            time: self.time,
            user: match self.user {
                Some(u) => Some(u@),
                None => None,
            },
            description: match self.description {
                Some(d) => Some(d@),
                None => None,
            },
        }
    }
}

impl View for InterimP4File {
    type V = SpecInterimFile;

    open spec fn view(&self) -> SpecInterimFile {
        SpecInterimFile {
            depot_path: match self.depot_path {
                Some(p) => Some(p@),
                None => None,
            },
            action: match self.action {
                Some(a) => Some(a@),
                None => None,
            },
            revision: self.revision,
            file_size: self.file_size,
            digest: match self.digest {
                Some(d) => Some(d@),
                None => None,
            },
        }
    }
}

/// Finalizing a changelist accumulator at the value level: succeeds exactly
/// when every required field is set, else names the first missing one.
pub open spec fn spec_finalize_cl(acc: SpecInterimChangelist, files: Seq<SpecP4File>) -> Result<
    SpecP4Changelist,
    &'static str,
> {
    if acc.change is None {
        Err("Missing changelist")
    } else if acc.time is None {
        Err("Missing time")
    } else if acc.user is None {
        Err("Missing user")
    } else if acc.description is None {
        Err("Missing description")
    } else {
        Ok(SpecP4Changelist {
            changelist: acc.change.unwrap(),
            time: acc.time.unwrap(),
            user: acc.user.unwrap(),
            description: acc.description.unwrap(),
            files,
        })
    }
}

/// Finalizing a file accumulator at the value level.
pub open spec fn spec_finalize_file(acc: SpecInterimFile) -> Result<SpecP4File, &'static str> {
    if acc.depot_path is None {
        Err("Missing depot path")
    } else if acc.action is None {
        Err("Missing action")
    } else if acc.revision is None {
        Err("Missing revision")
    } else if acc.file_size is None {
        Err("Missing file size")
    } else if acc.digest is None {
        Err("Missing digest")
    } else {
        Ok(SpecP4File {
            depot_path: acc.depot_path.unwrap(),
            action: acc.action.unwrap(),
            revision: acc.revision.unwrap(),
            file_size: acc.file_size.unwrap(),
            digest: acc.digest.unwrap(),
        })
    }
}

impl Default for InterimP4Changelist {
    /// An empty accumulator: no field observed yet, no files attached.
    fn default() -> (r: Self)
        ensures
            r.change is None,
            r.time is None,
            r.user is None,
            r.description is None,
            r.files@ =~= Seq::<P4File>::empty(),
    {
        InterimP4Changelist {
            change: None,
            time: None,
            user: None,
            description: None,
            files: Vec::new(),
        }
    }
}

impl Default for InterimP4File {
    /// An empty accumulator: no field observed yet.
    fn default() -> (r: Self)
        ensures
            r.depot_path is None,
            r.action is None,
            r.revision is None,
            r.file_size is None,
            r.digest is None,
    {
        InterimP4File { depot_path: None, action: None, revision: None, file_size: None, digest: None }
    }
}

impl InterimP4Changelist {
    /// True when every required changelist field has been observed.
    pub open spec fn complete(self) -> bool {
        self.change is Some && self.time is Some && self.user is Some && self.description is Some
    }

    /// Finalize the accumulator. Succeeds exactly when every required field
    /// is set; otherwise names the first missing field, in declaration order.
    pub fn try_into(self) -> (r: Result<P4Changelist, &'static str>)
        ensures
            r is Ok <==> self.complete(),
            r matches Ok(cl) ==> {
                &&& Some(cl.changelist) == self.change
                &&& Some(cl.time) == self.time
                &&& Some(cl.user) == self.user
                &&& Some(cl.description) == self.description
                &&& cl.files == self.files
            },
            r matches Err(m) ==> m == spec_first_missing_cl(self),
    {
        let InterimP4Changelist { change, time, user, description, files } = self;
        match (change, time, user, description) {
            (Some(c), Some(t), Some(u), Some(d)) => Ok(P4Changelist {
                changelist: c,
                time: t,
                user: u,
                description: d,
                files,
            }),
            (None, _, _, _) => Err("Missing changelist"),
            (_, None, _, _) => Err("Missing time"),
            (_, _, None, _) => Err("Missing user"),
            (_, _, _, None) => Err("Missing description"),
        }
    }
}

/// The message naming the first unset required changelist field.
pub open spec fn spec_first_missing_cl(acc: InterimP4Changelist) -> &'static str {
    if acc.change is None {
        "Missing changelist"
    } else if acc.time is None {
        "Missing time"
    } else if acc.user is None {
        "Missing user"
    } else {
        "Missing description"
    }
}

impl InterimP4File {
    /// True when every required file field has been observed.
    pub open spec fn complete(self) -> bool {
        self.depot_path is Some && self.action is Some && self.revision is Some
            && self.file_size is Some && self.digest is Some
    }

    /// Finalize the accumulator. Succeeds exactly when every required field
    /// is set; otherwise names the first missing field, in declaration order.
    pub fn try_into(self) -> (r: Result<P4File, &'static str>)
        ensures
            r is Ok <==> self.complete(),
            r matches Ok(f) ==> {
                &&& Some(f.depot_path) == self.depot_path
                &&& Some(f.action) == self.action
                &&& Some(f.revision) == self.revision
                &&& Some(f.file_size) == self.file_size
                &&& Some(f.digest) == self.digest
            },
            r matches Err(m) ==> m == spec_first_missing_file(self),
    {
        let InterimP4File { depot_path, action, revision, file_size, digest } = self;
        match (depot_path, action, revision, file_size, digest) {
            (Some(p), Some(a), Some(r), Some(s), Some(d)) => Ok(P4File {
                depot_path: p,
                action: a,
                revision: r,
                file_size: s,
                digest: d,
            }),
            (None, _, _, _, _) => Err("Missing depot path"),
            (_, None, _, _, _) => Err("Missing action"),
            (_, _, None, _, _) => Err("Missing revision"),
            (_, _, _, None, _) => Err("Missing file size"),
            (_, _, _, _, None) => Err("Missing digest"),
        }
    }
}

/// The message naming the first unset required file field.
pub open spec fn spec_first_missing_file(acc: InterimP4File) -> &'static str {
    if acc.depot_path is None {
        "Missing depot path"
    } else if acc.action is None {
        "Missing action"
    } else if acc.revision is None {
        "Missing revision"
    } else if acc.file_size is None {
        "Missing file size"
    } else {
        "Missing digest"
    }
}

// == Decimal field values

/// Whether `c` is a decimal digit.
pub open spec fn spec_is_digit(c: char) -> bool {
    '0' <= c && c <= '9'
}

/// Whether every character of `s` is a decimal digit.
pub open spec fn spec_all_digits(s: Seq<char>) -> bool {
    forall|i: int| 0 <= i < s.len() ==> spec_is_digit(#[trigger] s[i])
}

/// The numeric value of a digit string (most significant digit first).
pub open spec fn spec_dec_val(s: Seq<char>) -> nat
    decreases s.len(),
{
    if s.len() == 0 {
        0
    } else {
        spec_dec_val(s.drop_last()) * 10 + (s.last() as u32 - '0' as u32) as nat
    }
}

/// The value of `s` parsed as an unsigned decimal number with an optional
/// leading plus sign, or `None` when `s` is not such a number or the value
/// does not fit in a `u64`.
pub open spec fn spec_parse_u64(s: Seq<char>) -> Option<u64> {
    let t = if s.len() > 0 && s[0] == '+' {
        s.drop_first()
    } else {
        s
    };
    if t.len() > 0 && spec_all_digits(t) && spec_dec_val(t) <= u64::MAX {
        Some(spec_dec_val(t) as u64)
    } else {
        None
    }
}

/// As `spec_parse_u64`, but the value must fit in a `u32`.
pub open spec fn spec_parse_u32(s: Seq<char>) -> Option<u32> {
    match spec_parse_u64(s) {
        Some(v) => if v <= u32::MAX as u64 {
            Some(v as u32)
        } else {
            None
        },
        None => None,
    }
}

/// Extending a digit string on the right never decreases its value.
proof fn lemma_dec_val_take_le(s: Seq<char>, i: int)
    requires
        0 <= i <= s.len(),
        forall|j: int| i <= j < s.len() ==> spec_is_digit(#[trigger] s[j]),
    ensures
        spec_dec_val(s.take(i)) <= spec_dec_val(s),
    decreases s.len() - i,
{
    if i == s.len() {
        assert(s.take(i) =~= s);
    } else {
        lemma_dec_val_take_le(s, i + 1);
        assert(s.take(i + 1).drop_last() =~= s.take(i));
        assert(s.take(i + 1).last() == s[i] && spec_is_digit(s[i]));
        assert(spec_dec_val(s.take(i)) <= spec_dec_val(s.take(i + 1)));
    }
}

/// Parse a string as an unsigned decimal `u64`, exactly per `spec_parse_u64`.
pub fn parse_u64(s: &str) -> (r: Option<u64>)
    ensures
        r == spec_parse_u64(s@),
{
    let n = s.unicode_len();
    let ghost orig: Seq<char> = s@;
    let mut start: usize = 0;
    if n > 0 && s.get_char(0) == '+' {
        start = 1;
    }
    let ghost t: Seq<char> = if orig.len() > 0 && orig[0] == '+' {
        orig.drop_first()
    } else {
        orig
    };
    assert(t =~= orig.subrange(start as int, n as int));
    if start == n {
        return None;
    }
    let mut acc: u64 = 0;
    let mut i: usize = start;
    while i < n
        invariant
            start <= i <= n,
            start < n,
            n == orig.len(),
            orig == s@,
            t =~= orig.subrange(start as int, n as int),
            spec_parse_u64(orig) == (if t.len() > 0 && spec_all_digits(t) && spec_dec_val(t)
                <= u64::MAX {
                Some(spec_dec_val(t) as u64)
            } else {
                None::<u64>
            }),
            spec_all_digits(t.take(i - start)),
            acc == spec_dec_val(t.take(i - start)),
        decreases n - i,
    {
        let c = s.get_char(i);
        if c < '0' || c > '9' {
            proof {
                assert(t[i - start] == orig[i as int]);
                assert(!spec_all_digits(t));
            }
            return None;
        }
        let d: u32 = (c as u32) - ('0' as u32);
        proof {
            assert(t.take(i - start + 1).drop_last() =~= t.take(i - start));
            assert(t.take(i - start + 1).last() == t[i - start] && t[i - start] == orig[i as int]);
            assert(spec_dec_val(t.take(i - start + 1)) == acc * 10 + d);
        }
        if acc > (u64::MAX - d as u64) / 10 {
            proof {
                assert(acc as int * 10 + d as int > u64::MAX as int) by (nonlinear_arith)
                    requires
                        acc as int > (u64::MAX as int - d as int) / 10,
                        0 <= d as int <= 9,
                        acc as int >= 0,
                ;
                if spec_all_digits(t) {
                    lemma_dec_val_take_le(t, i - start + 1);
                }
            }
            return None;
        }
        acc = acc * 10 + d as u64;
        i = i + 1;
    }
    proof {
        assert(t.take(i - start) =~= t);
    }
    Some(acc)
}

/// Parse a string as an unsigned decimal `u32`, exactly per `spec_parse_u32`.
pub fn parse_u32(s: &str) -> (r: Option<u32>)
    ensures
        r == spec_parse_u32(s@),
{
    match parse_u64(s) {
        Some(v) => if v <= u32::MAX as u64 {
            Some(v as u32)
        } else {
            None
        },
        None => None,
    }
}

// == Indexed wire keys

/// The position of the first decimal digit of `s` at or after `from`.
pub open spec fn spec_find_digit(s: Seq<char>, from: int) -> Option<int>
    decreases s.len() - from,
{
    if from < 0 || from >= s.len() {
        None
    } else if spec_is_digit(s[from]) {
        Some(from)
    } else {
        spec_find_digit(s, from + 1)
    }
}

/// Split a wire key into its base name and decimal suffix: the suffix starts
/// at the first digit. `None` when no digit occurs or the tail from the first
/// digit on is not a plain `u32` decimal number.
pub open spec fn spec_split_indexed_key(s: Seq<char>) -> Option<(Seq<char>, u32)> {
    match spec_find_digit(s, 0) {
        None => None,
        Some(i) => match spec_parse_u32(s.skip(i)) {
            Some(v) => Some((s.take(i), v)),
            None => None,
        },
    }
}

/// Split a key such as `depotFile0` into (`depotFile`, 0), exactly per
/// `spec_split_indexed_key`.
pub fn split_indexed_key(key: &str) -> (r: Option<(&str, u32)>)
    ensures
        match spec_split_indexed_key(key@) {
            Some((base, v)) => r matches Some(p) && p.0@ == base && p.1 == v,
            None => r is None,
        },
{
    let n = key.unicode_len();
    let mut i: usize = 0;
    while i < n
        invariant
            0 <= i <= n,
            n == key@.len(),
            spec_find_digit(key@, 0) == spec_find_digit(key@, i as int),
            forall|j: int| 0 <= j < i ==> !spec_is_digit(#[trigger] key@[j]),
        decreases n - i,
    {
        let c = key.get_char(i);
        if '0' <= c && c <= '9' {
            let base = key.substring_char(0, i);
            let tail = key.substring_char(i, n);
            assert(tail@ =~= key@.skip(i as int));
            match parse_u32(tail) {
                Some(v) => {
                    return Some((base, v));
                },
                None => {
                    return None;
                },
            }
        }
        i = i + 1;
    }
    None
}

} // verus!
