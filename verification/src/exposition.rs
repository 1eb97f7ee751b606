//! Parser for the line-oriented plain-text metric exposition format
//! `name{labels} value`.
//!
//! The input is processed line by line: empty lines and comment lines are
//! skipped, each data line is split at its last space into a descriptor and
//! a value token, the value token must read as a 64-bit float, and the
//! descriptor is split into a metric name and an optional `{...}` label
//! list.  A line whose value token does not read as a float, or whose
//! metric name comes out empty, is silently dropped: malformed lines are
//! expected noise in this format and never fail the whole batch.
//!
//! Label values are stripped of one pair of surrounding double quotes; no
//! escape-sequence unescaping is performed (a known simplification, not
//! full exposition-format compliance).
//!
//! If the designated build-info metric carries a `name` label, its value is
//! reported as the discovered instance identity, and an `instance` label is
//! injected into every sample of the same call that does not already carry
//! one.

use vstd::prelude::*;

use crate::ascii::{COMMA, CR, EQUALS, HASH, LBRACE, LF, QUOTE, RBRACE, SPACE};
use crate::bytestr::{bytes_eq, copy_bytes, copy_range};
use crate::sample::{
    has_label, instance_key, instance_key_bytes, job_key, job_key_bytes, job_value,
    job_value_bytes, last_label_value, metric_name_key, metric_name_key_bytes, opt_bytes,
    sample_wf, Label, LabelModel, Sample, SampleModel,
};
use crate::token::{check_value_token, is_value_token};

verus! {

/// Name of the build-info metric whose `name` label identifies the
/// monitored instance.
pub open spec fn build_info_metric() -> Seq<u8> {
    // "substrate_build_info"
    seq![115, 117, 98, 115, 116, 114, 97, 116, 101, 95, 98, 117, 105, 108, 100, 95, 105, 110, 102, 111]
}

/// Key of the label, inside the build-info metric, that holds the instance
/// name.
pub open spec fn name_label_key() -> Seq<u8> {
    // "name"
    seq![110, 97, 109, 101]
}

/// Index of the first occurrence of `c` in `s`, or `s.len()` if `c` does
/// not occur.
pub open spec fn scan_to(s: Seq<u8>, c: u8) -> nat
    decreases s.len(),
{
    if s.len() == 0 {
        0
    } else if s[0] == c {
        0
    } else {
        1 + scan_to(s.drop_first(), c)
    }
}

/// Index of the last occurrence of `c` in `s`, if any.
pub open spec fn last_index_of(s: Seq<u8>, c: u8) -> Option<int>
    decreases s.len(),
{
    if s.len() == 0 {
        None
    } else if s.last() == c {
        Some(s.len() - 1)
    } else {
        last_index_of(s.drop_last(), c)
    }
}

/// `s` split on `sep`.  Every separator ends a piece, so the result always
/// holds one piece more than there are separators.
pub open spec fn split_on(s: Seq<u8>, sep: u8) -> Seq<Seq<u8>>
    decreases s.len(),
{
    let k = scan_to(s, sep);
    if k >= s.len() {
        seq![s]
    } else {
        seq![s.take(k as int)] + split_on(s.skip(k as int + 1), sep)
    }
}

/// One trailing carriage return is dropped, so that input with CRLF line
/// endings parses as input with LF endings does.
pub open spec fn strip_cr(raw: Seq<u8>) -> Seq<u8> {
    if raw.len() > 0 && raw.last() == CR {
        raw.drop_last()
    } else {
        raw
    }
}

/// One pair of surrounding double quotes is stripped from a label value:
/// one leading quote if present, then one trailing quote if present.
pub open spec fn strip_quotes(v: Seq<u8>) -> Seq<u8> {
    let a = if v.len() > 0 && v.first() == QUOTE {
        v.drop_first()
    } else {
        v
    };
    if a.len() > 0 && a.last() == QUOTE {
        a.drop_last()
    } else {
        a
    }
}

/// A `key=value` entry of a label list: split at the first `=`, quote-strip
/// the value.  An entry without `=` yields no label.
pub open spec fn parse_pair(p: Seq<u8>) -> Option<LabelModel> {
    let k = scan_to(p, EQUALS);
    if k >= p.len() {
        None
    } else {
        Some(LabelModel { name: p.take(k as int), value: strip_quotes(p.skip(k as int + 1)) })
    }
}

/// The labels parsed from the comma-separated entries of a label list, in
/// order, entries without `=` skipped.
pub open spec fn parsed_pairs(pieces: Seq<Seq<u8>>) -> Seq<LabelModel>
    decreases pieces.len(),
{
    if pieces.len() == 0 {
        Seq::empty()
    } else {
        parsed_pairs(pieces.drop_last()) + match parse_pair(pieces.last()) {
            Some(l) => seq![l],
            None => Seq::empty(),
        }
    }
}

/// The `{...}` segment of a descriptor whose `{` stands at index `j`: the
/// bytes strictly between `j` and the final byte (which a well-formed
/// descriptor closes with `}`).  Empty when nothing lies between.
pub open spec fn label_segment(d: Seq<u8>, j: int) -> Seq<u8> {
    if j + 1 <= d.len() - 1 {
        d.subrange(j + 1, d.len() - 1)
    } else {
        Seq::empty()
    }
}

/// What one data line contributes: its full label set, its raw value
/// token, and the instance identity it discovered, if any.
pub ghost struct LineParse {
    pub labels: Seq<LabelModel>,
    pub value_token: Seq<u8>,
    pub discovered: Option<Seq<u8>>,
}

/// A parsed descriptor: metric name before the first `{`, then the label
/// list.  A descriptor with an empty metric name yields nothing.
pub open spec fn parse_descriptor(d: Seq<u8>, token: Seq<u8>) -> Option<LineParse> {
    let j = scan_to(d, LBRACE);
    let name = d.take(j as int);
    let extra = if j >= d.len() {
        Seq::<LabelModel>::empty()
    } else {
        parsed_pairs(split_on(label_segment(d, j as int), COMMA))
    };
    if name.len() == 0 {
        None
    } else {
        Some(LineParse {
            labels: seq![
                LabelModel { name: metric_name_key(), value: name },
                LabelModel { name: job_key(), value: job_value() },
            ] + extra,
            value_token: token,
            discovered: if name == build_info_metric() {
                last_label_value(extra, name_label_key())
            } else {
                None
            },
        })
    }
}

/// One raw line: CR-stripped, then skipped if empty or a comment, split at
/// the last space, dropped unless the value token reads as a float.
pub open spec fn parse_line(raw: Seq<u8>) -> Option<LineParse> {
    let line = strip_cr(raw);
    if line.len() == 0 || line[0] == HASH {
        None
    } else {
        match last_index_of(line, SPACE) {
            None => None,
            Some(i) => if is_value_token(line.skip(i + 1)) {
                parse_descriptor(line.take(i), line.skip(i + 1))
            } else {
                None
            },
        }
    }
}

/// The fold over all lines: samples in line order, and the last discovered
/// instance identity, later discoveries overwriting earlier ones.
pub open spec fn parse_lines(lines: Seq<Seq<u8>>, ts: i64) -> (Seq<SampleModel>, Option<Seq<u8>>)
    decreases lines.len(),
{
    if lines.len() == 0 {
        (Seq::<SampleModel>::empty(), None::<Seq<u8>>)
    } else {
        let prev = parse_lines(lines.drop_last(), ts);
        match parse_line(lines.last()) {
            None => prev,
            Some(lp) => (
                prev.0.push(
                    SampleModel { labels: lp.labels, value_token: lp.value_token, timestamp_ms: ts },
                ),
                if lp.discovered is Some {
                    lp.discovered
                } else {
                    prev.1
                },
            ),
        }
    }
}

/// The post-pass: when an instance identity was discovered, every sample
/// that does not already define an `instance` label gets one appended.
pub open spec fn inject_instance(samples: Seq<SampleModel>, inst: Option<Seq<u8>>) -> Seq<SampleModel> {
    match inst {
        None => samples,
        Some(v) => samples.map_values(
            |s: SampleModel|
                if has_label(s.labels, instance_key()) {
                    s
                } else {
                    SampleModel {
                        labels: s.labels.push(LabelModel { name: instance_key(), value: v }),
                        value_token: s.value_token,
                        timestamp_ms: s.timestamp_ms,
                    }
                },
        ),
    }
}

/// The whole parse: split into lines, fold, inject the discovered instance.
pub open spec fn spec_parse(text: Seq<u8>, ts: i64) -> (Seq<SampleModel>, Option<Seq<u8>>) {
    let folded = parse_lines(split_on(text, LF), ts);
    (inject_instance(folded.0, folded.1), folded.1)
}

/// `scan_to` really is the index of the first occurrence: it never passes
/// the length, it lands on `c` when `c` occurs, and everything before it
/// differs from `c`.
pub proof fn lemma_scan_to(s: Seq<u8>, c: u8)
    ensures
        scan_to(s, c) <= s.len(),
        scan_to(s, c) < s.len() ==> s[scan_to(s, c) as int] == c,
        forall|j: int| 0 <= j < scan_to(s, c) ==> s[j] != c,
    decreases s.len(),
{
    if s.len() > 0 && s[0] != c {
        lemma_scan_to(s.drop_first(), c);
        assert forall|j: int| 0 <= j < scan_to(s, c) implies s[j] != c by {
            if j > 0 {
                assert(s.drop_first()[j - 1] == s[j]);
            }
        }
    }
}

/// `last_index_of` really is the index of the last occurrence.
pub proof fn lemma_last_index_of(s: Seq<u8>, c: u8)
    ensures
        match last_index_of(s, c) {
            Some(i) => 0 <= i < s.len() && s[i] == c && forall|j: int| i < j < s.len() ==> s[j] != c,
            None => forall|j: int| 0 <= j < s.len() ==> s[j] != c,
        },
    decreases s.len(),
{
    if s.len() > 0 && s.last() != c {
        lemma_last_index_of(s.drop_last(), c);
        assert(forall|j: int| 0 <= j < s.len() - 1 ==> s.drop_last()[j] == s[j]);
        match last_index_of(s, c) {
            Some(i) => {
                assert forall|j: int| i < j < s.len() implies s[j] != c by {
                    if j < s.len() - 1 {
                        assert(s.drop_last()[j] != c);
                    }
                }
            },
            None => {
                assert forall|j: int| 0 <= j < s.len() implies s[j] != c by {
                    if j < s.len() - 1 {
                        assert(s.drop_last()[j] != c);
                    }
                }
            },
        }
    }
}

/// How `split_on` unfolds at a separator found by a scan: if nothing before
/// index `k` is a separator, the first piece ends at `k` (or is the whole
/// sequence when no separator occurs at all).
pub proof fn lemma_split_on_step(s: Seq<u8>, sep: u8, k: int)
    requires
        0 <= k <= s.len(),
        forall|j: int| 0 <= j < k ==> s[j] != sep,
        k < s.len() ==> s[k] == sep,
    ensures
        k < s.len() ==> split_on(s, sep) == seq![s.take(k)] + split_on(s.skip(k + 1), sep),
        k == s.len() ==> split_on(s, sep) == seq![s],
{
    lemma_scan_to(s, sep);
    let f = scan_to(s, sep) as int;
    if k < s.len() {
        assert(f <= k) by {
            if f > k {
                assert(s[k] != sep);
            }
        }
        assert(f >= k) by {
            if f < k {
                assert(s[f] == sep);
            }
        }
    } else {
        assert(f == s.len()) by {
            if f < s.len() {
                assert(s[f] == sep);
            }
        }
    }
}

/// Index of the first occurrence of `c` in `s`, as `scan_to` gives it.
fn find_byte(s: &[u8], c: u8) -> (r: usize)
    ensures
        r == scan_to(s@, c),
{
    proof {
        lemma_scan_to(s@, c);
    }
    let n = s.len();
    let mut i: usize = 0;
    while i < n
        invariant
            0 <= i <= n,
            n == s@.len(),
            forall|j: int| 0 <= j < i ==> s@[j] != c,
        decreases n - i,
    {
        if s[i] == c {
            proof {
                lemma_scan_to(s@, c);
            }
            return i;
        }
        i = i + 1;
    }
    i
}

/// Index of the last occurrence of `c` in `s`, as `last_index_of` gives it.
fn rfind_byte(s: &[u8], c: u8) -> (r: Option<usize>)
    ensures
        match r {
            Some(i) => last_index_of(s@, c) == Some(i as int),
            None => last_index_of(s@, c) is None,
        },
{
    proof {
        lemma_last_index_of(s@, c);
    }
    let n = s.len();
    let mut i: usize = n;
    while i > 0
        invariant
            0 <= i <= n,
            n == s@.len(),
            forall|j: int| i <= j < n ==> s@[j] != c,
        decreases i,
    {
        i = i - 1;
        if s[i] == c {
            proof {
                lemma_last_index_of(s@, c);
                let li = last_index_of(s@, c);
                assert(li is Some);
                let x = li->0;
                assert(s@[x] == c);
                assert(x <= i);
                assert(x >= i);
            }
            return Some(i);
        }
    }
    None
}

/// `s` split on `sep`, as `split_on` gives it.
fn split_on_byte(s: &[u8], sep: u8) -> (r: Vec<Vec<u8>>)
    ensures
        r@.map_values(|p: Vec<u8>| p@) == split_on(s@, sep),
{
    let n = s.len();
    let mut pieces: Vec<Vec<u8>> = Vec::new();
    let mut start: usize = 0;
    let mut i: usize = 0;
    proof {
        assert(pieces@.map_values(|p: Vec<u8>| p@) =~= Seq::<Seq<u8>>::empty());
        assert(s@.skip(0) =~= s@);
        assert(Seq::<Seq<u8>>::empty() + split_on(s@, sep) =~= split_on(s@, sep));
    }
    loop
        invariant
            0 <= start <= i <= n,
            n == s@.len(),
            forall|j: int| start <= j < i ==> s@[j] != sep,
            split_on(s@, sep) == pieces@.map_values(|p: Vec<u8>| p@) + split_on(
                s@.skip(start as int),
                sep,
            ),
        decreases n - i,
    {
        if i < n && s[i] != sep {
            i = i + 1;
        } else {
            let piece = copy_range(s, start, i);
            proof {
                let rest = s@.skip(start as int);
                let k = i - start;
                assert forall|j: int| 0 <= j < k implies rest[j] != sep by {
                    assert(rest[j] == s@[start + j]);
                }
                if i < n {
                    assert(rest[k as int] == s@[i as int]);
                }
                lemma_split_on_step(rest, sep, k as int);
                assert(rest.take(k as int) =~= s@.subrange(start as int, i as int));
                if i < n {
                    assert(rest.skip(k + 1) =~= s@.skip(i + 1));
                }
                assert(pieces@.push(piece).map_values(|p: Vec<u8>| p@) =~= pieces@.map_values(
                    |p: Vec<u8>| p@,
                ).push(piece@));
            }
            proof {
                let oldmap = pieces@.map_values(|p: Vec<u8>| p@);
                let rest = s@.skip(start as int);
                if i < n {
                    assert(oldmap + (seq![piece@] + split_on(s@.skip((i + 1) as int), sep))
                        =~= (oldmap + seq![piece@]) + split_on(s@.skip((i + 1) as int), sep));
                    assert(oldmap.push(piece@) =~= oldmap + seq![piece@]);
                } else {
                    assert(rest =~= s@.subrange(start as int, n as int));
                    assert(oldmap.push(piece@) =~= oldmap + seq![rest]);
                }
            }
            pieces.push(piece);
            if i < n {
                start = i + 1;
                i = start;
            } else {
                return pieces;
            }
        }
    }
}

/// The bytes of the build-info metric name.
pub fn build_info_metric_bytes() -> (r: Vec<u8>)
    ensures
        r@ == build_info_metric(),
{
    let mut v: Vec<u8> = Vec::new();
    v.push(115);
    v.push(117);
    v.push(98);
    v.push(115);
    v.push(116);
    v.push(114);
    v.push(97);
    v.push(116);
    v.push(101);
    v.push(95);
    v.push(98);
    v.push(117);
    v.push(105);
    v.push(108);
    v.push(100);
    v.push(95);
    v.push(105);
    v.push(110);
    v.push(102);
    v.push(111);
    proof {
        assert(v@ =~= build_info_metric());
    }
    v
}

/// The bytes of `"name"`.
pub fn name_label_key_bytes() -> (r: Vec<u8>)
    ensures
        r@ == name_label_key(),
{
    let mut v: Vec<u8> = Vec::new();
    v.push(110);
    v.push(97);
    v.push(109);
    v.push(101);
    proof {
        assert(v@ =~= name_label_key());
    }
    v
}

/// Whether some label of `labels` has the name `key`, as `has_label` gives
/// it on the labels' model.
fn has_label_exec(labels: &Vec<Label>, key: &[u8]) -> (r: bool)
    ensures
        r == has_label(labels@.map_values(|l: Label| l@), key@),
{
    let ghost m = labels@.map_values(|l: Label| l@);
    let n = labels.len();
    let mut i: usize = 0;
    while i < n
        invariant
            0 <= i <= n,
            n == labels@.len(),
            m == labels@.map_values(|l: Label| l@),
            forall|j: int| 0 <= j < i ==> m[j].name != key@,
        decreases n - i,
    {
        if bytes_eq(labels[i].name.as_slice(), key) {
            proof {
                assert(m[i as int].name == key@);
            }
            return true;
        }
        i = i + 1;
    }
    false
}

/// `strip_quotes` on a byte string.
fn strip_quotes_exec(v: &[u8]) -> (r: Vec<u8>)
    ensures
        r@ == strip_quotes(v@),
{
    let n = v.len();
    let a: usize = if n > 0 && v[0] == QUOTE {
        1
    } else {
        0
    };
    let b: usize = if n > a && v[n - 1] == QUOTE {
        n - 1
    } else {
        n
    };
    let r = copy_range(v, a, b);
    proof {
        let lead = if v@.len() > 0 && v@.first() == QUOTE {
            v@.drop_first()
        } else {
            v@
        };
        assert(lead =~= v@.subrange(a as int, n as int));
        assert(strip_quotes(v@) =~= v@.subrange(a as int, b as int));
    }
    r
}

/// `parse_pair` on one label-list entry.
fn parse_pair_exec(p: &[u8]) -> (r: Option<Label>)
    ensures
        match r {
            Some(l) => parse_pair(p@) == Some(l@),
            None => parse_pair(p@) is None,
        },
{
    let n = p.len();
    let k = find_byte(p, EQUALS);
    if k >= n {
        return None;
    }
    let name = copy_range(p, 0, k);
    let raw = copy_range(p, k + 1, n);
    let value = strip_quotes_exec(raw.as_slice());
    proof {
        assert(p@.subrange(0, k as int) =~= p@.take(k as int));
        assert(raw@ =~= p@.skip(k as int + 1));
    }
    Some(Label { name, value })
}

/// `parse_descriptor` on a descriptor, handing the value token through.
fn parse_descriptor_exec(d: &[u8], token: Vec<u8>) -> (r: Option<(Vec<Label>, Vec<u8>, Option<
    Vec<u8>,
>)>)
    ensures
        match r {
            Some(t) => {
                &&& parse_descriptor(d@, token@) == Some(
                    LineParse {
                        labels: t.0@.map_values(|l: Label| l@),
                        value_token: t.1@,
                        discovered: opt_bytes(t.2),
                    },
                )
                &&& t.1@ == token@
            },
            None => parse_descriptor(d@, token@) is None,
        },
{
    let n = d.len();
    let j = find_byte(d, LBRACE);
    proof {
        lemma_scan_to(d@, LBRACE);
    }
    let ghost spec_name = d@.take(j as int);
    if j == 0 {
        proof {
            assert(spec_name.len() == 0);
        }
        return None;
    }
    let name = copy_range(d, 0, j);
    proof {
        assert(name@ =~= spec_name);
    }
    let mut labels: Vec<Label> = Vec::new();
    labels.push(Label { name: metric_name_key_bytes(), value: copy_bytes(&name) });
    labels.push(Label { name: job_key_bytes(), value: job_value_bytes() });
    let ghost base = seq![
        LabelModel { name: metric_name_key(), value: spec_name },
        LabelModel { name: job_key(), value: job_value() },
    ];
    proof {
        assert(labels@.map_values(|l: Label| l@) =~= base);
    }
    let is_build = bytes_eq(name.as_slice(), build_info_metric_bytes().as_slice());
    let mut discovered: Option<Vec<u8>> = None;
    if j < n {
        let seg: Vec<u8> = if j + 1 <= n - 1 {
            copy_range(d, j + 1, n - 1)
        } else {
            Vec::new()
        };
        proof {
            assert(seg@ =~= label_segment(d@, j as int));
        }
        let pieces = split_on_byte(seg.as_slice(), COMMA);
        let ghost pmodel = pieces@.map_values(|p: Vec<u8>| p@);
        let np = pieces.len();
        let mut pi: usize = 0;
        proof {
            assert(pmodel.take(0) =~= Seq::<Seq<u8>>::empty());
            assert(labels@.map_values(|l: Label| l@) =~= base + parsed_pairs(pmodel.take(0)));
        }
        while pi < np
            invariant
                0 <= pi <= np,
                np == pieces@.len(),
                pmodel == pieces@.map_values(|p: Vec<u8>| p@),
                labels@.map_values(|l: Label| l@) == base + parsed_pairs(pmodel.take(pi as int)),
                opt_bytes(discovered) == if is_build {
                    last_label_value(parsed_pairs(pmodel.take(pi as int)), name_label_key())
                } else {
                    None::<Seq<u8>>
                },
            decreases np - pi,
        {
            let ghost prefix = parsed_pairs(pmodel.take(pi as int));
            proof {
                assert(pmodel.take(pi + 1).drop_last() =~= pmodel.take(pi as int));
                assert(pmodel.take(pi + 1).last() == pmodel[pi as int]);
                assert(pieces@[pi as int]@ == pmodel[pi as int]);
            }
            match parse_pair_exec(pieces[pi].as_slice()) {
                Some(l) => {
                    proof {
                        let e = prefix + seq![l@];
                        assert(e.drop_last() =~= prefix);
                        assert(e.last() == l@);
                        assert(parsed_pairs(pmodel.take(pi + 1)) =~= e);
                        assert(labels@.push(l).map_values(|x: Label| x@) =~= labels@.map_values(
                            |x: Label| x@,
                        ).push(l@));
                        assert((base + prefix).push(l@) =~= base + e);
                    }
                    if is_build && bytes_eq(l.name.as_slice(), name_label_key_bytes().as_slice()) {
                        discovered = Some(copy_bytes(&l.value));
                    }
                    labels.push(l);
                },
                None => {
                    proof {
                        assert(parsed_pairs(pmodel.take(pi + 1)) =~= prefix
                            + Seq::<LabelModel>::empty());
                        assert(prefix + Seq::<LabelModel>::empty() =~= prefix);
                    }
                },
            }
            pi = pi + 1;
        }
        proof {
            assert(pmodel.take(np as int) =~= pmodel);
        }
    }
    proof {
        if j >= n {
            assert(base + Seq::<LabelModel>::empty() =~= base);
        }
        let lp = parse_descriptor(d@, token@);
        assert(lp is Some);
        assert(lp->0.labels =~= labels@.map_values(|l: Label| l@));
    }
    Some((labels, token, discovered))
}

/// `parse_line` on one raw line.
fn parse_line_exec(raw: &[u8]) -> (r: Option<(Vec<Label>, Vec<u8>, Option<Vec<u8>>)>)
    ensures
        match r {
            Some(t) => parse_line(raw@) == Some(
                LineParse {
                    labels: t.0@.map_values(|l: Label| l@),
                    value_token: t.1@,
                    discovered: opt_bytes(t.2),
                },
            ),
            None => parse_line(raw@) is None,
        },
{
    let n = raw.len();
    let m: usize = if n > 0 && raw[n - 1] == CR {
        n - 1
    } else {
        n
    };
    let ghost line = strip_cr(raw@);
    proof {
        assert(line =~= raw@.subrange(0, m as int));
    }
    if m == 0 {
        return None;
    }
    if raw[0] == HASH {
        proof {
            assert(line[0] == raw@[0]);
        }
        return None;
    }
    proof {
        assert(line[0] == raw@[0]);
    }
    let lv = copy_range(raw, 0, m);
    match rfind_byte(lv.as_slice(), SPACE) {
        None => None,
        Some(i) => {
            proof {
                lemma_last_index_of(line, SPACE);
            }
            let token = copy_range(lv.as_slice(), i + 1, m);
            proof {
                assert(token@ =~= line.skip(i + 1));
            }
            if !check_value_token(token.as_slice()) {
                return None;
            }
            let desc = copy_range(lv.as_slice(), 0, i);
            proof {
                assert(desc@ =~= line.take(i as int));
            }
            parse_descriptor_exec(desc.as_slice(), token)
        },
    }
}

/// A fresh copy of a sample, label by label.
fn clone_sample(s: &Sample) -> (r: Sample)
    ensures
        r@ == s@,
{
    let mut labels: Vec<Label> = Vec::new();
    let n = s.labels.len();
    let mut i: usize = 0;
    while i < n
        invariant
            0 <= i <= n,
            n == s.labels@.len(),
            labels@.map_values(|l: Label| l@) == s.labels@.map_values(|l: Label| l@).take(i as int),
        decreases n - i,
    {
        let l = Label {
            name: copy_bytes(&s.labels[i].name),
            value: copy_bytes(&s.labels[i].value),
        };
        proof {
            assert(labels@.push(l).map_values(|x: Label| x@) =~= labels@.map_values(
                |x: Label| x@,
            ).push(l@));
            assert(s.labels@.map_values(|x: Label| x@).take(i + 1) =~= s.labels@.map_values(
                |x: Label| x@,
            ).take(i as int).push(s.labels@.map_values(|x: Label| x@)[i as int]));
        }
        labels.push(l);
        i = i + 1;
    }
    proof {
        assert(s.labels@.map_values(|l: Label| l@).take(n as int) =~= s.labels@.map_values(
            |l: Label| l@,
        ));
    }
    Sample { labels, value_token: copy_bytes(&s.value_token), timestamp_ms: s.timestamp_ms }
}

/// Parses a whole scrape body captured at `timestamp_ms`.
///
/// The first result is the ordered sample batch, the second the instance
/// identity discovered from the build-info metric, if any; both exactly as
/// `spec_parse` gives them.  Parsing never fails: malformed lines are
/// dropped and everything else is kept, deterministically.
pub fn parse(text: &[u8], timestamp_ms: i64) -> (r: (Vec<Sample>, Option<Vec<u8>>))
    ensures
        r.0@.map_values(|s: Sample| s@) == spec_parse(text@, timestamp_ms).0,
        opt_bytes(r.1) == spec_parse(text@, timestamp_ms).1,
{
    let lines = split_on_byte(text, LF);
    let ghost lmodel = lines@.map_values(|p: Vec<u8>| p@);
    let nl = lines.len();
    let mut samples: Vec<Sample> = Vec::new();
    let mut discovered: Option<Vec<u8>> = None;
    let mut li: usize = 0;
    proof {
        assert(lmodel.take(0) =~= Seq::<Seq<u8>>::empty());
        assert(samples@.map_values(|s: Sample| s@) =~= parse_lines(lmodel.take(0), timestamp_ms).0);
    }
    while li < nl
        invariant
            0 <= li <= nl,
            nl == lines@.len(),
            lmodel == lines@.map_values(|p: Vec<u8>| p@),
            samples@.map_values(|s: Sample| s@) == parse_lines(lmodel.take(li as int), timestamp_ms).0,
            opt_bytes(discovered) == parse_lines(lmodel.take(li as int), timestamp_ms).1,
            forall|k: int| 0 <= k < samples@.len() ==> samples@[k].timestamp_ms == timestamp_ms,
        decreases nl - li,
    {
        proof {
            assert(lmodel.take(li + 1).drop_last() =~= lmodel.take(li as int));
            assert(lmodel.take(li + 1).last() == lmodel[li as int]);
            assert(lines@[li as int]@ == lmodel[li as int]);
        }
        match parse_line_exec(lines[li].as_slice()) {
            Some(t) => {
                let (labels, tok, disc) = t;
                let s = Sample { labels, value_token: tok, timestamp_ms };
                proof {
                    assert(samples@.push(s).map_values(|x: Sample| x@) =~= samples@.map_values(
                        |x: Sample| x@,
                    ).push(s@));
                }
                samples.push(s);
                if disc.is_some() {
                    discovered = disc;
                }
            },
            None => {},
        }
        li = li + 1;
    }
    proof {
        assert(lmodel.take(nl as int) =~= lmodel);
    }
    match discovered {
        None => (samples, None),
        Some(inst) => {
            let ghost folded = parse_lines(lmodel, timestamp_ms).0;
            let ghost injected = inject_instance(folded, Some(inst@));
            let key = instance_key_bytes();
            let ns = samples.len();
            let mut out: Vec<Sample> = Vec::new();
            let mut k: usize = 0;
            proof {
                assert(out@.map_values(|s: Sample| s@) =~= injected.take(0));
            }
            while k < ns
                invariant
                    0 <= k <= ns,
                    ns == samples@.len(),
                    key@ == instance_key(),
                    folded == samples@.map_values(|s: Sample| s@),
                    injected == inject_instance(folded, Some(inst@)),
                    out@.map_values(|s: Sample| s@) == injected.take(k as int),
                decreases ns - k,
            {
                let mut c = clone_sample(&samples[k]);
                proof {
                    assert(c@ == folded[k as int]);
                    assert(injected[k as int] == if has_label(folded[k as int].labels, instance_key()) {
                        folded[k as int]
                    } else {
                        SampleModel {
                            labels: folded[k as int].labels.push(
                                LabelModel { name: instance_key(), value: inst@ },
                            ),
                            value_token: folded[k as int].value_token,
                            timestamp_ms: folded[k as int].timestamp_ms,
                        }
                    });
                }
                if !has_label_exec(&c.labels, key.as_slice()) {
                    let lab = Label { name: copy_bytes(&key), value: copy_bytes(&inst) };
                    proof {
                        assert(c.labels@.push(lab).map_values(|x: Label| x@) =~= c.labels@.map_values(
                            |x: Label| x@,
                        ).push(lab@));
                    }
                    c.labels.push(lab);
                }
                proof {
                    assert(injected.take(k + 1) =~= injected.take(k as int).push(injected[k as int]));
                    assert(out@.push(c).map_values(|x: Sample| x@) =~= out@.map_values(
                        |x: Sample| x@,
                    ).push(c@));
                }
                out.push(c);
                k = k + 1;
            }
            proof {
                assert(injected.take(ns as int) =~= injected);
            }
            (out, Some(inst))
        },
    }
}

/// Parsing is deterministic: two parses of the same text with the same
/// timestamp come out structurally identical, batch and discovery alike.
pub proof fn lemma_parse_deterministic(
    text: Seq<u8>,
    ts: i64,
    r1: (Seq<SampleModel>, Option<Seq<u8>>),
    r2: (Seq<SampleModel>, Option<Seq<u8>>),
)
    requires
        r1 == spec_parse(text, ts),
        r2 == spec_parse(text, ts),
    ensures
        r1 == r2,
{
}

/// A line that is empty, a comment, has no space, or whose trailing token
/// is not a float literal yields no sample — and no error: the line is
/// simply dropped.
pub proof fn lemma_noise_line_dropped(raw: Seq<u8>)
    requires
        ({
            let line = strip_cr(raw);
            ||| line.len() == 0
            ||| line.len() > 0 && line[0] == HASH
            ||| match last_index_of(line, SPACE) {
                None => true,
                Some(i) => !is_value_token(line.skip(i + 1)),
            }
        }),
    ensures
        parse_line(raw) is None,
{
}

/// A dropped line contributes nothing to the fold: batch and discovery
/// are those of the remaining lines.
pub proof fn lemma_dropped_line_adds_nothing(lines: Seq<Seq<u8>>, l: Seq<u8>, ts: i64)
    requires
        parse_line(l) is None,
    ensures
        parse_lines(lines.push(l), ts) == parse_lines(lines, ts),
{
    assert(lines.push(l).drop_last() =~= lines);
    assert(lines.push(l).last() == l);
}

/// Whatever one line holds, a parsed line always contributes a non-empty
/// metric name as its first label and the fixed job label as its second.
pub proof fn lemma_parse_line_wf(raw: Seq<u8>)
    ensures
        parse_line(raw) matches Some(lp) ==> {
            &&& lp.labels.len() >= 2
            &&& lp.labels[0].name == metric_name_key()
            &&& lp.labels[0].value.len() > 0
            &&& lp.labels[1].name == job_key()
            &&& lp.labels[1].value == job_value()
        },
{
    let line = strip_cr(raw);
    if parse_line(raw) is Some {
        let i = last_index_of(line, SPACE)->0;
        let d = line.take(i);
        let lp = parse_descriptor(d, line.skip(i + 1))->0;
        let j = scan_to(d, LBRACE) as int;
        let name = d.take(j);
        assert(lp.labels[0] == LabelModel { name: metric_name_key(), value: name });
        assert(lp.labels[1] == LabelModel { name: job_key(), value: job_value() });
    }
}

/// Every sample of the fold is well formed and carries the call's
/// timestamp: all samples of one scrape share one timestamp.
pub proof fn lemma_parse_lines_wf(lines: Seq<Seq<u8>>, ts: i64)
    ensures
        forall|k: int| 0 <= k < parse_lines(lines, ts).0.len() ==> sample_wf(
            #[trigger] parse_lines(lines, ts).0[k],
        ) && parse_lines(lines, ts).0[k].timestamp_ms == ts,
    decreases lines.len(),
{
    if lines.len() > 0 {
        lemma_parse_lines_wf(lines.drop_last(), ts);
        lemma_parse_line_wf(lines.last());
        let prev = parse_lines(lines.drop_last(), ts);
        let cur = parse_lines(lines, ts);
        assert forall|k: int| 0 <= k < cur.0.len() implies sample_wf(#[trigger] cur.0[k])
            && cur.0[k].timestamp_ms == ts by {
            match parse_line(lines.last()) {
                None => {
                    assert(cur.0[k] == prev.0[k]);
                },
                Some(lp) => {
                    if k < prev.0.len() {
                        assert(cur.0[k] == prev.0[k]);
                    } else {
                        assert(cur.0[k] == SampleModel {
                            labels: lp.labels,
                            value_token: lp.value_token,
                            timestamp_ms: ts,
                        });
                    }
                },
            }
        }
    }
}

/// Every sample `parse` hands out is well formed — it has a non-empty
/// metric name and the fixed job label — and carries the call's
/// timestamp.
pub proof fn lemma_parse_samples_wf(text: Seq<u8>, ts: i64)
    ensures
        forall|k: int| 0 <= k < spec_parse(text, ts).0.len() ==> sample_wf(
            #[trigger] spec_parse(text, ts).0[k],
        ) && spec_parse(text, ts).0[k].timestamp_ms == ts,
{
    let folded = parse_lines(split_on(text, LF), ts);
    lemma_parse_lines_wf(split_on(text, LF), ts);
    let r = spec_parse(text, ts);
    assert forall|k: int| 0 <= k < r.0.len() implies sample_wf(#[trigger] r.0[k])
        && r.0[k].timestamp_ms == ts by {
        match folded.1 {
            None => {},
            Some(v) => {
                assert(r.0[k] == inject_instance(folded.0, folded.1)[k]);
                let s = folded.0[k];
                if !has_label(s.labels, instance_key()) {
                    let nl = s.labels.push(LabelModel { name: instance_key(), value: v });
                    assert(nl[0] == s.labels[0]);
                    assert(nl[1] == s.labels[1]);
                }
            },
        }
    }
}

/// Instance propagation: when a parse discovers an instance identity,
/// every sample of that same call ends up carrying an `instance` label —
/// a sample that already had one is left unmodified, every other gets the
/// discovered value appended.
pub proof fn lemma_instance_propagation(text: Seq<u8>, ts: i64)
    ensures
        ({
            let folded = parse_lines(split_on(text, LF), ts);
            let r = spec_parse(text, ts);
            &&& r.1 == folded.1
            &&& (r.1 matches Some(v) ==> {
                &&& r.0.len() == folded.0.len()
                &&& (forall|k: int| 0 <= k < r.0.len() ==> has_label(
                    #[trigger] r.0[k].labels,
                    instance_key(),
                ))
                &&& (forall|k: int|
                    0 <= k < r.0.len() && has_label(folded.0[k].labels, instance_key())
                        ==> #[trigger] r.0[k] == folded.0[k])
                &&& (forall|k: int|
                    0 <= k < r.0.len() && !has_label(folded.0[k].labels, instance_key())
                        ==> #[trigger] r.0[k].labels == folded.0[k].labels.push(
                        LabelModel { name: instance_key(), value: v },
                    ))
            })
        }),
{
    let folded = parse_lines(split_on(text, LF), ts);
    let r = spec_parse(text, ts);
    match folded.1 {
        None => {},
        Some(v) => {
            assert forall|k: int| 0 <= k < r.0.len() implies has_label(
                #[trigger] r.0[k].labels,
                instance_key(),
            ) by {
                let s = folded.0[k];
                assert(r.0[k] == inject_instance(folded.0, folded.1)[k]);
                if !has_label(s.labels, instance_key()) {
                    let nl = s.labels.push(LabelModel { name: instance_key(), value: v });
                    assert(nl[nl.len() - 1].name == instance_key());
                    assert(has_label(nl, instance_key()));
                }
            }
        },
    }
}

/// One data line `name{key="value"} token` as a byte sequence.
pub open spec fn exposition_line(
    name: Seq<u8>,
    key: Seq<u8>,
    value: Seq<u8>,
    tok: Seq<u8>,
) -> Seq<u8> {
    name + seq![LBRACE] + key + seq![EQUALS, QUOTE] + value + seq![QUOTE, RBRACE, SPACE] + tok
}

/// A valid exposition line parses to exactly one contribution: the metric
/// name, the fixed job label and the one parsed label `key=value`, with
/// the given value token — and it discovers an instance identity exactly
/// when the metric is the build-info metric and the label key is `name`.
#[verifier::rlimit(80)]
pub proof fn lemma_valid_line(name: Seq<u8>, key: Seq<u8>, value: Seq<u8>, tok: Seq<u8>)
    requires
        name.len() > 0,
        name[0] != HASH,
        forall|j: int| 0 <= j < name.len() ==> name[j] != LBRACE,
        forall|j: int| 0 <= j < key.len() ==> key[j] != EQUALS && key[j] != COMMA,
        forall|j: int| 0 <= j < value.len() ==> value[j] != COMMA,
        tok.len() > 0,
        is_value_token(tok),
        forall|j: int| 0 <= j < tok.len() ==> tok[j] != SPACE,
        tok.last() != CR,
    ensures
        parse_line(exposition_line(name, key, value, tok)) == Some(
            LineParse {
                labels: seq![
                    LabelModel { name: metric_name_key(), value: name },
                    LabelModel { name: job_key(), value: job_value() },
                    LabelModel { name: key, value: value },
                ],
                value_token: tok,
                discovered: if name == build_info_metric() && key == name_label_key() {
                    Some(value)
                } else {
                    None
                },
            },
        ),
{
    let nl = name.len() as int;
    let kl = key.len() as int;
    let pair0 = key + seq![EQUALS, QUOTE] + value + seq![QUOTE];
    let d = name + seq![LBRACE] + pair0 + seq![RBRACE];
    let line = exposition_line(name, key, value, tok);
    let dl = d.len() as int;
    assert(line =~= d + seq![SPACE] + tok);

    // The line survives the CR strip and the comment check.
    assert(line[line.len() - 1] == tok.last());
    assert(strip_cr(line) == line);
    assert(line[0] == name[0]);

    // The last space is the one before the token.
    assert(line[dl] == SPACE);
    assert forall|j: int| dl < j < line.len() implies line[j] != SPACE by {
        assert(line[j] == tok[j - dl - 1]);
    }
    lemma_last_index_of(line, SPACE);
    let li = last_index_of(line, SPACE);
    assert(li is Some);
    let i = li->0;
    assert(i >= dl) by {
        if i < dl {
            assert(line[dl] != SPACE);
        }
    }
    assert(i <= dl) by {
        if i > dl {
            assert(line[i] == tok[i - dl - 1]);
        }
    }
    assert(line.skip(dl + 1) =~= tok);
    assert(line.take(dl) =~= d);

    // The descriptor splits at the brace into the name and the label
    // segment.
    lemma_scan_to(d, LBRACE);
    assert(d[nl] == LBRACE);
    assert forall|j: int| 0 <= j < nl implies d[j] != LBRACE by {
        assert(d[j] == name[j]);
    }
    let sj = scan_to(d, LBRACE) as int;
    assert(sj >= nl) by {
        if sj < nl {
            assert(d[sj] == name[sj]);
        }
    }
    assert(sj <= nl) by {
        if sj > nl {
            assert(d[nl] != LBRACE);
        }
    }
    assert(d.take(nl) =~= name);
    assert(nl + 1 <= dl - 1);
    assert(label_segment(d, nl) =~= pair0);

    // No comma anywhere in the segment: it is one single entry.
    assert forall|j: int| 0 <= j < pair0.len() implies pair0[j] != COMMA by {
        if j < kl {
            assert(pair0[j] == key[j]);
        } else if j == kl {
            assert(pair0[j] == EQUALS);
        } else if j == kl + 1 {
            assert(pair0[j] == QUOTE);
        } else if j < kl + 2 + value.len() {
            assert(pair0[j] == value[j - kl - 2]);
        } else {
            assert(pair0[j] == QUOTE);
        }
    }
    lemma_split_on_step(pair0, COMMA, pair0.len() as int);
    let pieces = seq![pair0];
    assert(split_on(pair0, COMMA) == pieces);

    // The entry splits at its first equals sign into the key and the
    // quoted value.
    lemma_scan_to(pair0, EQUALS);
    assert(pair0[kl] == EQUALS);
    assert forall|j: int| 0 <= j < kl implies pair0[j] != EQUALS by {
        assert(pair0[j] == key[j]);
    }
    let sk = scan_to(pair0, EQUALS) as int;
    assert(sk >= kl) by {
        if sk < kl {
            assert(pair0[sk] == key[sk]);
        }
    }
    assert(sk <= kl) by {
        if sk > kl {
            assert(pair0[kl] != EQUALS);
        }
    }
    assert(pair0.take(kl) =~= key);
    let vraw = pair0.skip(kl + 1);
    assert(vraw =~= seq![QUOTE] + value + seq![QUOTE]);
    assert(vraw.first() == QUOTE);
    let a = vraw.drop_first();
    assert(a =~= value + seq![QUOTE]);
    assert(a.last() == QUOTE);
    assert(a.drop_last() =~= value);
    assert(strip_quotes(vraw) == value);
    let lab = LabelModel { name: key, value: value };
    assert(parse_pair(pair0) == Some(lab));

    // The label list therefore holds exactly that one label.
    assert(pieces.drop_last() =~= Seq::<Seq<u8>>::empty());
    assert(parsed_pairs(Seq::<Seq<u8>>::empty()) =~= Seq::<LabelModel>::empty());
    let extra = parsed_pairs(pieces);
    assert(extra =~= Seq::<LabelModel>::empty() + seq![lab]);
    assert(extra =~= seq![lab]);

    // Discovery looks the `name` key up in that list.
    assert(extra.len() == 1);
    assert(extra.last() == lab);
    assert(extra.drop_last() =~= Seq::<LabelModel>::empty());
    if key == name_label_key() {
        assert(last_label_value(extra, name_label_key()) == Some(value));
    } else {
        let e0 = extra.drop_last();
        assert(e0.len() == 0);
        assert(last_label_value(e0, name_label_key()) is None);
        assert(last_label_value(extra, name_label_key()) is None);
    }

    // Assemble.
    let lp = parse_descriptor(d, tok);
    assert(lp is Some);
    assert(lp->0.labels =~= seq![
        LabelModel { name: metric_name_key(), value: name },
        LabelModel { name: job_key(), value: job_value() },
        lab,
    ]);
    assert(is_value_token(line.skip(i + 1)));
}

/// A whole scrape body that consists of one valid line of an ordinary
/// metric parses to exactly one well-formed sample and no discovery.
pub proof fn lemma_valid_single_line_parse(
    name: Seq<u8>,
    key: Seq<u8>,
    value: Seq<u8>,
    tok: Seq<u8>,
    ts: i64,
)
    requires
        name.len() > 0,
        name[0] != HASH,
        name != build_info_metric(),
        forall|j: int| 0 <= j < name.len() ==> name[j] != LBRACE && name[j] != LF,
        forall|j: int| 0 <= j < key.len() ==> key[j] != EQUALS && key[j] != COMMA && key[j] != LF,
        forall|j: int| 0 <= j < value.len() ==> value[j] != COMMA && value[j] != LF,
        tok.len() > 0,
        is_value_token(tok),
        forall|j: int| 0 <= j < tok.len() ==> tok[j] != SPACE && tok[j] != LF,
        tok.last() != CR,
    ensures
        spec_parse(exposition_line(name, key, value, tok), ts) == (
            seq![
                SampleModel {
                    labels: seq![
                        LabelModel { name: metric_name_key(), value: name },
                        LabelModel { name: job_key(), value: job_value() },
                        LabelModel { name: key, value: value },
                    ],
                    value_token: tok,
                    timestamp_ms: ts,
                },
            ],
            None::<Seq<u8>>,
        ),
{
    lemma_valid_line(name, key, value, tok);
    let line = exposition_line(name, key, value, tok);
    let nl = name.len() as int;
    let kl = key.len() as int;
    assert forall|j: int| 0 <= j < line.len() implies line[j] != LF by {
        if j < nl {
            assert(line[j] == name[j]);
        } else if j == nl {
            assert(line[j] == LBRACE);
        } else if j < nl + 1 + kl {
            assert(line[j] == key[j - nl - 1]);
        } else if j == nl + 1 + kl {
            assert(line[j] == EQUALS);
        } else if j == nl + 2 + kl {
            assert(line[j] == QUOTE);
        } else if j < nl + 3 + kl + value.len() {
            assert(line[j] == value[j - nl - 3 - kl]);
        } else if j < nl + 6 + kl + value.len() {
            assert(line[j] == seq![QUOTE, RBRACE, SPACE][j - nl - 3 - kl - value.len()]);
        } else {
            assert(line[j] == tok[j - nl - 6 - kl - value.len()]);
        }
    }
    lemma_split_on_step(line, LF, line.len() as int);
    let lines = seq![line];
    assert(split_on(line, LF) == lines);
    assert(lines.drop_last() =~= Seq::<Seq<u8>>::empty());
    let prev = parse_lines(lines.drop_last(), ts);
    assert(prev.0.len() == 0 && prev.1 is None);
    let folded = parse_lines(lines, ts);
    assert(lines.last() == line);
    let lp = parse_line(line)->0;
    assert(lp.discovered is None);
    assert(folded.0 == prev.0.push(
        SampleModel { labels: lp.labels, value_token: lp.value_token, timestamp_ms: ts },
    ));
    assert(folded.0 =~= seq![
        SampleModel { labels: lp.labels, value_token: lp.value_token, timestamp_ms: ts },
    ]);
    assert(folded.1 is None);
    assert(spec_parse(line, ts).0 =~= folded.0);
}

} // verus!

