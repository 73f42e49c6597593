//! The line serializer and the record model.
//!
//! One record becomes one line of text:
//! `measurement[,tag=value]* field=literal[,field=literal]* timestamp`.
//! Tags are rendered sorted by name; fields keep their declared order; a
//! record with no field is rejected. No trailing newline is appended.
use vstd::prelude::*;
use vstd::seq_lib::lemma_multiset_commutative;
use vstd::string::StringExecFns;

use crate::buf::push_char;
use crate::escape::build_escapedtagstr;
use crate::escape::tag_escaped;
use crate::num::append_dec_u64;
use crate::num::dec_rep;
use crate::order::chars_le;
use crate::order::lemma_chars_le_total;
use crate::order::lemma_chars_le_trans;
use crate::order::str_le;
use crate::value::FieldValue;
use crate::value::MetricError;

verus! {

/// A key/value pair destined to become one tag of a line.
pub struct Tag {
    /// The tag's name; unique among the record's tags.
    pub name: String,
    /// The tag's raw value; escaped when the line is rendered.
    pub value: String,
}

/// A key/value pair destined to become one field of a line.
pub struct Field {
    /// The field's name; unique among the record's fields.
    pub name: String,
    /// The field's typed value.
    pub value: FieldValue,
}

impl Clone for Tag {
    /// A clone is the same pair.
    fn clone(&self) -> (r: Self)
        ensures
            r == *self,
    {
        Tag { name: self.name.clone(), value: self.value.clone() }
    }
}

impl Clone for Field {
    /// A clone is the same pair.
    fn clone(&self) -> (r: Self)
        ensures
            r == *self,
    {
        Field { name: self.name.clone(), value: self.value.clone() }
    }
}

/// One tag as it stands on the line: a leading comma, the name, an
/// equals sign, the escaped value.
pub open spec fn tag_rendered(t: Tag) -> Seq<char> {
    seq![','] + t.name@ + seq!['='] + tag_escaped(t.value@)
}

/// The whole tag section: every tag in order, nothing for no tags.
pub open spec fn tags_rendered(ts: Seq<Tag>) -> Seq<char>
    decreases ts.len(),
{
    if ts.len() == 0 {
        Seq::empty()
    } else {
        tag_rendered(ts[0]) + tags_rendered(ts.drop_first())
    }
}

/// One field as it stands on the line: the name, an equals sign, the
/// value's literal.
pub open spec fn field_rendered(f: Field) -> Seq<char> {
    f.name@ + seq!['='] + f.value.rendered()
}

/// The fields after the first, each preceded by a comma.
pub open spec fn fields_tail_rendered(fs: Seq<Field>) -> Seq<char>
    decreases fs.len(),
{
    if fs.len() == 0 {
        Seq::empty()
    } else {
        seq![','] + field_rendered(fs[0]) + fields_tail_rendered(fs.drop_first())
    }
}

/// The whole field section: the first field, then the rest, comma
/// separated.
pub open spec fn fields_rendered(fs: Seq<Field>) -> Seq<char> {
    if fs.len() == 0 {
        Seq::empty()
    } else {
        field_rendered(fs[0]) + fields_tail_rendered(fs.drop_first())
    }
}

/// One whole line: the measurement name verbatim, the tag section, a
/// space, the field section, a space, and the timestamp in decimal
/// nanoseconds.
pub open spec fn line_rendered(
    measurement: Seq<char>,
    tags: Seq<Tag>,
    fields: Seq<Field>,
    timestamp_ns: u64,
) -> Seq<char> {
    measurement + tags_rendered(tags) + seq![' '] + fields_rendered(fields) + seq![' '] + dec_rep(
        timestamp_ns as nat,
    )
}

/// Tags in ascending name order.
pub open spec fn tags_sorted(ts: Seq<Tag>) -> bool {
    forall|i: int, j: int|
        #![trigger ts[i], ts[j]]
        0 <= i < j < ts.len() ==> chars_le(ts[i].name@, ts[j].name@)
}

proof fn lemma_tags_rendered_push(ts: Seq<Tag>, t: Tag)
    ensures
        tags_rendered(ts.push(t)) == tags_rendered(ts) + tag_rendered(t),
    decreases ts.len(),
{
    reveal_with_fuel(tags_rendered, 3);
    if ts.len() == 0 {
        assert(ts.push(t)[0] == t);
        assert(ts.push(t).drop_first() =~= Seq::<Tag>::empty());
        assert(tags_rendered(ts.push(t)) =~= tags_rendered(ts) + tag_rendered(t));
    } else {
        assert(ts.push(t)[0] == ts[0]);
        assert(ts.push(t).drop_first() =~= ts.drop_first().push(t));
        lemma_tags_rendered_push(ts.drop_first(), t);
        assert(tags_rendered(ts.push(t)) == tag_rendered(ts[0]) + tags_rendered(
            ts.drop_first().push(t),
        ));
        assert(tags_rendered(ts.push(t)) =~= tags_rendered(ts) + tag_rendered(t));
    }
}

proof fn lemma_fields_tail_push(fs: Seq<Field>, f: Field)
    ensures
        fields_tail_rendered(fs.push(f)) == fields_tail_rendered(fs) + seq![','] + field_rendered(
            f,
        ),
    decreases fs.len(),
{
    reveal_with_fuel(fields_tail_rendered, 3);
    if fs.len() == 0 {
        assert(fs.push(f)[0] == f);
        assert(fs.push(f).drop_first() =~= Seq::<Field>::empty());
        assert(fields_tail_rendered(fs.push(f)) =~= fields_tail_rendered(fs) + seq![',']
            + field_rendered(f));
    } else {
        assert(fs.push(f)[0] == fs[0]);
        assert(fs.push(f).drop_first() =~= fs.drop_first().push(f));
        lemma_fields_tail_push(fs.drop_first(), f);
        assert(fields_tail_rendered(fs.push(f)) == seq![','] + field_rendered(fs[0])
            + fields_tail_rendered(fs.drop_first().push(f)));
        assert(fields_tail_rendered(fs.push(f)) =~= fields_tail_rendered(fs) + seq![',']
            + field_rendered(f));
    }
}

/// Appends one line for the given parts to `buffer`: the measurement
/// verbatim, the tags in the order given, the fields in the order given,
/// the timestamp. An empty field list is refused and the buffer is left
/// untouched.
pub fn build_line(
    measurement: &str,
    tags: &Vec<Tag>,
    fields: &Vec<Field>,
    timestamp_ns: u64,
    buffer: &mut String,
) -> (r: Result<(), MetricError>)
    ensures
        fields@.len() == 0 ==> r == Err::<(), MetricError>(MetricError::NoFields) && *final(buffer)
            == *old(buffer),
        fields@.len() > 0 ==> r == Ok::<(), MetricError>(()) && final(buffer)@ == old(buffer)@
            + line_rendered(measurement@, tags@, fields@, timestamp_ns),
{
    if fields.len() == 0 {
        return Err(MetricError::NoFields);
    }
    buffer.append(measurement);
    let n_tags: usize = tags.len();
    let mut i: usize = 0;
    while i < n_tags
        invariant
            i <= n_tags,
            n_tags == tags@.len(),
            buffer@ == old(buffer)@ + measurement@ + tags_rendered(tags@.take(i as int)),
        decreases n_tags - i,
    {
        let t = &tags[i];
        push_char(buffer, ',');
        buffer.append(t.name.as_str());
        push_char(buffer, '=');
        build_escapedtagstr(t.value.as_str(), buffer);
        proof {
            assert(tags@.take(i as int + 1) =~= tags@.take(i as int).push(tags@[i as int]));
            lemma_tags_rendered_push(tags@.take(i as int), tags@[i as int]);
            assert(buffer@ =~= old(buffer)@ + measurement@ + tags_rendered(
                tags@.take(i as int + 1),
            ));
        }
        i = i + 1;
    }
    proof {
        assert(tags@.take(n_tags as int) =~= tags@);
    }
    push_char(buffer, ' ');
    let f0 = &fields[0];
    buffer.append(f0.name.as_str());
    push_char(buffer, '=');
    f0.value.build(buffer);
    let ghost head = old(buffer)@ + measurement@ + tags_rendered(tags@) + seq![' ']
        + field_rendered(fields@[0]);
    proof {
        assert(buffer@ =~= head);
        assert(fields@.subrange(1, 1) =~= Seq::<Field>::empty());
    }
    let n_fields: usize = fields.len();
    let mut j: usize = 1;
    while j < n_fields
        invariant
            1 <= j <= n_fields,
            n_fields == fields@.len(),
            head == old(buffer)@ + measurement@ + tags_rendered(tags@) + seq![' ']
                + field_rendered(fields@[0]),
            buffer@ == head + fields_tail_rendered(fields@.subrange(1, j as int)),
        decreases n_fields - j,
    {
        let f = &fields[j];
        push_char(buffer, ',');
        buffer.append(f.name.as_str());
        push_char(buffer, '=');
        f.value.build(buffer);
        proof {
            assert(fields@.subrange(1, j as int + 1) =~= fields@.subrange(1, j as int).push(
                fields@[j as int],
            ));
            lemma_fields_tail_push(fields@.subrange(1, j as int), fields@[j as int]);
            assert(buffer@ =~= head + fields_tail_rendered(fields@.subrange(1, j as int + 1)));
        }
        j = j + 1;
    }
    push_char(buffer, ' ');
    append_dec_u64(buffer, timestamp_ns);
    proof {
        assert(fields@.subrange(1, n_fields as int) =~= fields@.drop_first());
        assert(buffer@ =~= old(buffer)@ + line_rendered(measurement@, tags@, fields@, timestamp_ns));
    }
    Ok(())
}

/// The position in a name-sorted tag list at which a tag named `name`
/// belongs: past every name at or before it in the order.
fn insert_pos(out: &Vec<Tag>, name: &str) -> (pos: usize)
    requires
        tags_sorted(out@),
    ensures
        pos <= out@.len(),
        forall|k: int| 0 <= k < pos ==> chars_le(#[trigger] out@[k].name@, name@),
        pos < out@.len() ==> !chars_le(out@[pos as int].name@, name@),
{
    let n: usize = out.len();
    let mut pos: usize = 0;
    while pos < n
        invariant
            pos <= n,
            n == out@.len(),
            forall|k: int| 0 <= k < pos ==> chars_le(#[trigger] out@[k].name@, name@),
        decreases n - pos,
    {
        if !str_le(out[pos].name.as_str(), name) {
            return pos;
        }
        pos = pos + 1;
    }
    pos
}

proof fn lemma_to_multiset_insert(s: Seq<Tag>, p: int, t: Tag)
    requires
        0 <= p <= s.len(),
    ensures
        s.insert(p, t).to_multiset() == s.to_multiset().insert(t),
{
    broadcast use vstd::seq_lib::group_to_multiset_ensures;

    let a = s.subrange(0, p);
    let b = s.subrange(p, s.len() as int);
    assert(s.insert(p, t) == a.push(t) + b);
    lemma_multiset_commutative(a.push(t), b);
    assert(a + b =~= s);
    lemma_multiset_commutative(a, b);
    assert(s.insert(p, t).to_multiset() =~= s.to_multiset().insert(t));
}

proof fn lemma_sorted_insert(s: Seq<Tag>, p: int, t: Tag)
    requires
        tags_sorted(s),
        0 <= p <= s.len(),
        forall|k: int| 0 <= k < p ==> chars_le(#[trigger] s[k].name@, t.name@),
        p < s.len() ==> !chars_le(s[p].name@, t.name@),
    ensures
        tags_sorted(s.insert(p, t)),
{
    let s2 = s.insert(p, t);
    s.insert_ensures(p, t);
    assert forall|i: int, j: int| 0 <= i < j < s2.len() implies chars_le(
        s2[i].name@,
        s2[j].name@,
    ) by {
        if j < p {
            assert(s2[i] == s[i] && s2[j] == s[j]);
        } else if j == p {
            assert(s2[i] == s[i]);
        } else {
            assert(s2[j] == s[j - 1]);
            if i < p {
                assert(s2[i] == s[i]);
                if i == j - 1 {
                } else if j - 1 == p {
                    lemma_chars_le_total(s[p].name@, t.name@);
                    lemma_chars_le_trans(s[i].name@, t.name@, s[p].name@);
                } else {
                    assert(chars_le(s[i].name@, s[j - 1].name@));
                }
            } else if i == p {
                lemma_chars_le_total(s[p].name@, t.name@);
                if j - 1 == p {
                } else {
                    lemma_chars_le_trans(t.name@, s[p].name@, s[j - 1].name@);
                }
            } else {
                assert(s2[i] == s[i - 1]);
                assert(chars_le(s[i - 1].name@, s[j - 1].name@));
            }
        }
    }
}

/// Sorts tags by name, ascending; the result is a permutation of the
/// input. Tag names are unique within a record, so the order among equal
/// names never matters.
pub fn sort_tags(tags: Vec<Tag>) -> (r: Vec<Tag>)
    ensures
        tags_sorted(r@),
        r@.to_multiset() == tags@.to_multiset(),
        r@.len() == tags@.len(),
{
    broadcast use vstd::seq_lib::group_to_multiset_ensures;

    let n: usize = tags.len();
    let mut out: Vec<Tag> = Vec::new();
    let mut idx: usize = 0;
    while idx < n
        invariant
            idx <= n,
            n == tags@.len(),
            out@.len() == idx,
            tags_sorted(out@),
            out@.to_multiset() == tags@.take(idx as int).to_multiset(),
        decreases n - idx,
    {
        let t = tags[idx].clone();
        let pos = insert_pos(&out, t.name.as_str());
        let ghost pre = out@;
        out.insert(pos, t);
        proof {
            broadcast use vstd::seq_lib::group_to_multiset_ensures;

            lemma_to_multiset_insert(pre, pos as int, t);
            lemma_sorted_insert(pre, pos as int, t);
            assert(tags@.take(idx as int + 1) =~= tags@.take(idx as int).push(tags@[idx as int]));
            assert(tags@.take(idx as int).push(tags@[idx as int]).to_multiset()
                =~= tags@.take(idx as int).to_multiset().insert(tags@[idx as int]));
        }
        idx = idx + 1;
    }
    proof {
        assert(tags@.take(n as int) =~= tags@);
    }
    out
}

/// What any measurement type offers the serializer: a name, a timestamp,
/// tags, fields, and an entry point that appends the type's own line to
/// a caller-supplied buffer.
pub trait Metric {
    /// The timestamp, in nanoseconds since the epoch.
    spec fn spec_time(&self) -> u64;

    /// The measurement name.
    spec fn spec_measurement(&self) -> Seq<char>;

    /// The tags, in the order they are serialized.
    spec fn spec_tags(&self) -> Seq<Tag>;

    /// The fields, in the order they are serialized.
    spec fn spec_fields(&self) -> Seq<Field>;

    /// The timestamp of this observation, in nanoseconds since the epoch.
    fn time(&self) -> (t: u64)
        ensures
            t == self.spec_time(),
    ;

    /// The measurement name.
    fn measurement(&self) -> (m: String)
        ensures
            m@ == self.spec_measurement(),
    ;

    /// The tags, in serialization order.
    fn tags(&self) -> (ts: Vec<Tag>)
        ensures
            ts@ == self.spec_tags(),
    ;

    /// The fields, in serialization order.
    fn fields(&self) -> (fs: Vec<Field>)
        ensures
            fs@ == self.spec_fields(),
    ;

    /// Appends this record's line to `buffer`; refuses a record with no
    /// field, leaving the buffer untouched.
    fn build(&self, buffer: &mut String) -> (r: Result<(), MetricError>)
        ensures
            self.spec_fields().len() == 0 ==> r == Err::<(), MetricError>(MetricError::NoFields)
                && *final(buffer) == *old(buffer),
            self.spec_fields().len() > 0 ==> r == Ok::<(), MetricError>(()) && final(buffer)@ == old(
                buffer,
            )@ + line_rendered(
                self.spec_measurement(),
                self.spec_tags(),
                self.spec_fields(),
                self.spec_time(),
            ),
    ;

    /// This record's line as a fresh string; empty when the record has no
    /// field.
    fn to_lineproto(&self) -> (s: String)
        ensures
            self.spec_fields().len() == 0 ==> s@ == Seq::<char>::empty(),
            self.spec_fields().len() > 0 ==> s@ == line_rendered(
                self.spec_measurement(),
                self.spec_tags(),
                self.spec_fields(),
                self.spec_time(),
            ),
    ;
}

/// One measurement observation assembled from plain values: holds at
/// least one field when built through `new`, which also sorts the tags
/// by name.
pub struct Record {
    /// The measurement name; rendered verbatim.
    pub measurement: String,
    /// The tags; `new` stores them sorted by name.
    pub tags: Vec<Tag>,
    /// The fields; serialized in this order.
    pub fields: Vec<Field>,
    /// Nanoseconds since the epoch.
    pub timestamp_ns: u64,
}

impl Record {
    /// Well-formed: at least one field, tags sorted by name.
    pub open spec fn wf(&self) -> bool {
        self.fields@.len() > 0 && tags_sorted(self.tags@)
    }

    /// Builds a record: refuses an empty field list and sorts the tags
    /// by name; the measurement, the fields and the timestamp are taken
    /// as given.
    pub fn new(
        measurement: String,
        tags: Vec<Tag>,
        fields: Vec<Field>,
        timestamp_ns: u64,
    ) -> (r: Result<Record, MetricError>)
        ensures
            fields@.len() == 0 <==> r == Err::<Record, MetricError>(MetricError::NoFields),
            fields@.len() > 0 ==> r is Ok && {
                let rec = r->Ok_0;
                &&& rec.wf()
                &&& rec.measurement@ == measurement@
                &&& rec.fields@ == fields@
                &&& rec.timestamp_ns == timestamp_ns
                &&& rec.tags@.to_multiset() == tags@.to_multiset()
            },
    {
        if fields.len() == 0 {
            return Err(MetricError::NoFields);
        }
        let sorted = sort_tags(tags);
        Ok(Record { measurement, tags: sorted, fields, timestamp_ns })
    }
}

impl Metric for Record {
    open spec fn spec_time(&self) -> u64 {
        self.timestamp_ns
    }

    open spec fn spec_measurement(&self) -> Seq<char> {
        self.measurement@
    }

    open spec fn spec_tags(&self) -> Seq<Tag> {
        self.tags@
    }

    open spec fn spec_fields(&self) -> Seq<Field> {
        self.fields@
    }

    fn time(&self) -> (t: u64) {
        self.timestamp_ns
    }

    fn measurement(&self) -> (m: String) {
        self.measurement.clone()
    }

    fn tags(&self) -> (ts: Vec<Tag>) {
        let mut ts: Vec<Tag> = Vec::new();
        let n: usize = self.tags.len();
        let mut i: usize = 0;
        while i < n
            invariant
                i <= n,
                n == self.tags@.len(),
                ts@ == self.tags@.take(i as int),
            decreases n - i,
        {
            ts.push(self.tags[i].clone());
            proof {
                assert(self.tags@.take(i as int + 1) =~= self.tags@.take(i as int).push(
                    self.tags@[i as int],
                ));
            }
            i = i + 1;
        }
        proof {
            assert(self.tags@.take(n as int) =~= self.tags@);
        }
        ts
    }

    fn fields(&self) -> (fs: Vec<Field>) {
        let mut fs: Vec<Field> = Vec::new();
        let n: usize = self.fields.len();
        let mut i: usize = 0;
        while i < n
            invariant
                i <= n,
                n == self.fields@.len(),
                fs@ == self.fields@.take(i as int),
            decreases n - i,
        {
            fs.push(self.fields[i].clone());
            proof {
                assert(self.fields@.take(i as int + 1) =~= self.fields@.take(i as int).push(
                    self.fields@[i as int],
                ));
            }
            i = i + 1;
        }
        proof {
            assert(self.fields@.take(n as int) =~= self.fields@);
        }
        fs
    }

    fn build(&self, buffer: &mut String) -> (r: Result<(), MetricError>) {
        build_line(self.measurement.as_str(), &self.tags, &self.fields, self.timestamp_ns, buffer)
    }

    fn to_lineproto(&self) -> (s: String) {
        let mut s = String::new();
        let _ = self.build(&mut s);
        s
    }
}

} // verus!
