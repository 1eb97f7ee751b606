//! The data model of one metric observation: labels and samples, together
//! with the spec-level model used by every contract in the crate.
//!
//! All text is carried as bytes (`Vec<u8>` in executable code, `Seq<u8>` in
//! specifications).  A sample's numeric value is carried as the IEEE-754 bit
//! pattern of the parsed 64-bit float, so the reading that produced it is
//! preserved exactly without the crate itself computing on floats.

use vstd::prelude::*;

verus! {

/// One (name, value) pair attached to a sample.
#[derive(Debug, PartialEq, Eq)]
pub struct Label {
    pub name: Vec<u8>,
    pub value: Vec<u8>,
}

/// Spec-level model of a label: both strings as byte sequences.
pub ghost struct LabelModel {
    pub name: Seq<u8>,
    pub value: Seq<u8>,
}

impl View for Label {
    type V = LabelModel;

    open spec fn view(&self) -> LabelModel {
        LabelModel { name: self.name@, value: self.value@ }
    }
}

/// One labeled metric observation: an ordered label set, the raw value
/// token exactly as it stood in the exposition line, and the millisecond
/// timestamp of the scrape that produced it.
///
/// The token is kept as bytes rather than as a float: the parser admits
/// only tokens that read as 64-bit float literals, and the unverified rim
/// of the program converts the token when a batch is encoded for the wire.
#[derive(Debug, PartialEq, Eq)]
pub struct Sample {
    pub labels: Vec<Label>,
    pub value_token: Vec<u8>,
    pub timestamp_ms: i64,
}

/// Spec-level model of a sample.
pub ghost struct SampleModel {
    pub labels: Seq<LabelModel>,
    pub value_token: Seq<u8>,
    pub timestamp_ms: i64,
}

impl View for Sample {
    type V = SampleModel;

    open spec fn view(&self) -> SampleModel {
        SampleModel {
            labels: self.labels@.map_values(|l: Label| l@),
            value_token: self.value_token@,
            timestamp_ms: self.timestamp_ms,
        }
    }
}

/// Whether some label in `labels` has the name `key`.
pub open spec fn has_label(labels: Seq<LabelModel>, key: Seq<u8>) -> bool {
    exists|i: int| 0 <= i < labels.len() && labels[i].name == key
}

/// The value of the last label named `key`, if any.  "Last wins" mirrors how
/// repeated keys are read everywhere in this crate.
pub open spec fn last_label_value(labels: Seq<LabelModel>, key: Seq<u8>) -> Option<Seq<u8>>
    decreases labels.len(),
{
    if labels.len() == 0 {
        None
    } else if labels.last().name == key {
        Some(labels.last().value)
    } else {
        last_label_value(labels.drop_last(), key)
    }
}

/// The reserved label name that carries the metric name.
pub open spec fn metric_name_key() -> Seq<u8> {
    // "__name__"
    seq![95, 95, 110, 97, 109, 101, 95, 95]
}

/// The fixed label name identifying this agent as the source.
pub open spec fn job_key() -> Seq<u8> {
    // "job"
    seq![106, 111, 98]
}

/// The fixed value of the `job` label.
pub open spec fn job_value() -> Seq<u8> {
    // "parachain-node-scraper"
    seq![112, 97, 114, 97, 99, 104, 97, 105, 110, 45, 110, 111, 100, 101, 45, 115, 99, 114, 97, 112, 101, 114]
}

/// The label name under which the discovered instance identity is injected.
pub open spec fn instance_key() -> Seq<u8> {
    // "instance"
    seq![105, 110, 115, 116, 97, 110, 99, 101]
}

/// A sample is well formed when its first label is a non-empty metric name
/// and its second label is the fixed `job` label.
pub open spec fn sample_wf(s: SampleModel) -> bool {
    &&& s.labels.len() >= 2
    &&& s.labels[0].name == metric_name_key()
    &&& s.labels[0].value.len() > 0
    &&& s.labels[1].name == job_key()
    &&& s.labels[1].value == job_value()
}

/// The byte-sequence view of an optional byte string.
pub open spec fn opt_bytes(o: Option<Vec<u8>>) -> Option<Seq<u8>> {
    match o {
        Some(v) => Some(v@),
        None => None,
    }
}

/// The bytes of `"__name__"`.
pub fn metric_name_key_bytes() -> (r: Vec<u8>)
    ensures
        r@ == metric_name_key(),
{
    let mut v: Vec<u8> = Vec::new();
    v.push(95);
    v.push(95);
    v.push(110);
    v.push(97);
    v.push(109);
    v.push(101);
    v.push(95);
    v.push(95);
    proof {
        assert(v@ =~= metric_name_key());
    }
    v
}

/// The bytes of `"job"`.
pub fn job_key_bytes() -> (r: Vec<u8>)
    ensures
        r@ == job_key(),
{
    let mut v: Vec<u8> = Vec::new();
    v.push(106);
    v.push(111);
    v.push(98);
    proof {
        assert(v@ =~= job_key());
    }
    v
}

/// The bytes of the fixed `job` label value.
pub fn job_value_bytes() -> (r: Vec<u8>)
    ensures
        r@ == job_value(),
{
    let mut v: Vec<u8> = Vec::new();
    v.push(112);
    v.push(97);
    v.push(114);
    v.push(97);
    v.push(99);
    v.push(104);
    v.push(97);
    v.push(105);
    v.push(110);
    v.push(45);
    v.push(110);
    v.push(111);
    v.push(100);
    v.push(101);
    v.push(45);
    v.push(115);
    v.push(99);
    v.push(114);
    v.push(97);
    v.push(112);
    v.push(101);
    v.push(114);
    proof {
        assert(v@ =~= job_value());
    }
    v
}

/// The bytes of `"instance"`.
pub fn instance_key_bytes() -> (r: Vec<u8>)
    ensures
        r@ == instance_key(),
{
    let mut v: Vec<u8> = Vec::new();
    v.push(105);
    v.push(110);
    v.push(115);
    v.push(116);
    v.push(97);
    v.push(110);
    v.push(99);
    v.push(101);
    proof {
        assert(v@ =~= instance_key());
    }
    v
}

} // verus!

