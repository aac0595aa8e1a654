//! A record: the cells of one data row, each under the name of its column.
//!
//! A record is a small ordered map. Its model is a sequence of pairs of key
//! and value in which no key occurs twice; the order is that in which the
//! keys were first inserted.

use vstd::prelude::*;

verus! {

/// No two fields of `fields` carry the same key.
pub open spec fn distinct_keys(fields: Seq<(Seq<char>, Seq<char>)>) -> bool {
    forall|i: int, j: int|
        0 <= i < fields.len() && 0 <= j < fields.len() && i != j ==> (#[trigger] fields[i]).0 != (
        #[trigger] fields[j]).0
}

/// Some field of `fields` carries `key`.
pub open spec fn has_key(fields: Seq<(Seq<char>, Seq<char>)>, key: Seq<char>) -> bool {
    exists|i: int| 0 <= i < fields.len() && (#[trigger] fields[i]).0 == key
}

/// A position at which `fields` carries `key`; the only one where the keys
/// are distinct.
pub open spec fn key_position(fields: Seq<(Seq<char>, Seq<char>)>, key: Seq<char>) -> int {
    choose|i: int| 0 <= i < fields.len() && (#[trigger] fields[i]).0 == key
}

/// `fields` after `value` was stored under `key`: where the key is present
/// its value is replaced in place, otherwise the pair is appended.
pub open spec fn upsert(
    fields: Seq<(Seq<char>, Seq<char>)>,
    key: Seq<char>,
    value: Seq<char>,
) -> Seq<(Seq<char>, Seq<char>)> {
    if has_key(fields, key) {
        fields.update(key_position(fields, key), (key, value))
    } else {
        fields.push((key, value))
    }
}

/// The fields that result from storing the pairs of `pairs` one after
/// another, starting with none.
pub open spec fn collect_fields(pairs: Seq<(Seq<char>, Seq<char>)>) -> Seq<(Seq<char>, Seq<char>)>
    decreases pairs.len(),
{
    if pairs.len() == 0 {
        Seq::empty()
    } else {
        upsert(collect_fields(pairs.drop_last()), pairs.last().0, pairs.last().1)
    }
}

/// The cells of `row` paired with the names of `header`, position by
/// position, as far as both reach.
pub open spec fn zip_cells(header: Seq<Seq<char>>, row: Seq<Seq<char>>) -> Seq<
    (Seq<char>, Seq<char>),
> {
    Seq::new(
        if header.len() <= row.len() {
            header.len()
        } else {
            row.len()
        },
        |i: int| (header[i], row[i]),
    )
}

/// The record of `row` under `header`.
pub open spec fn record_of(header: Seq<Seq<char>>, row: Seq<Seq<char>>) -> Seq<
    (Seq<char>, Seq<char>),
> {
    collect_fields(zip_cells(header, row))
}

/// No name occurs twice in `names`.
pub open spec fn distinct_names(names: Seq<Seq<char>>) -> bool {
    forall|i: int, j: int|
        0 <= i < names.len() && 0 <= j < names.len() && i != j ==> #[trigger] names[i]
            != #[trigger] names[j]
}

/// The character sequences of a list of strings.
pub open spec fn texts(strings: Seq<String>) -> Seq<Seq<char>> {
    Seq::new(strings.len(), |i: int| strings[i]@)
}

/// The character sequences of a list of pairs of strings.
pub open spec fn pair_texts(pairs: Seq<(String, String)>) -> Seq<(Seq<char>, Seq<char>)> {
    Seq::new(pairs.len(), |i: int| (pairs[i].0@, pairs[i].1@))
}

/// Storing a value under a key leaves the keys distinct.
pub proof fn lemma_upsert_keeps_keys_distinct(
    fields: Seq<(Seq<char>, Seq<char>)>,
    key: Seq<char>,
    value: Seq<char>,
)
    requires
        distinct_keys(fields),
    ensures
        distinct_keys(upsert(fields, key, value)),
        has_key(upsert(fields, key, value), key),
{
    let after = upsert(fields, key, value);
    let at = if has_key(fields, key) {
        key_position(fields, key)
    } else {
        fields.len() as int
    };
    assert(after[at].0 == key);
}

/// The value that `fields` holds under `key`, where the key is present.
pub open spec fn value_of(fields: Seq<(Seq<char>, Seq<char>)>, key: Seq<char>) -> Seq<char> {
    fields[key_position(fields, key)].1
}

/// The pair at `i` is the last of `pairs` that carries its key.
pub open spec fn last_of_its_key(pairs: Seq<(Seq<char>, Seq<char>)>, i: int) -> bool {
    forall|j: int| i < j < pairs.len() ==> (#[trigger] pairs[j]).0 != pairs[i].0
}

/// Storing a value under a key adds that key and no other, gives the key
/// that value, and leaves the values of the other keys as they were.
pub proof fn lemma_upsert_values(
    fields: Seq<(Seq<char>, Seq<char>)>,
    key: Seq<char>,
    value: Seq<char>,
)
    requires
        distinct_keys(fields),
    ensures
        forall|other: Seq<char>|
            has_key(upsert(fields, key, value), other) <==> (has_key(fields, other) || other
                == key),
        value_of(upsert(fields, key, value), key) == value,
        forall|other: Seq<char>|
            other != key && has_key(fields, other) ==> value_of(
                upsert(fields, key, value),
                other,
            ) == value_of(fields, other),
{
    let after = upsert(fields, key, value);
    lemma_upsert_keeps_keys_distinct(fields, key, value);
    let at = if has_key(fields, key) {
        key_position(fields, key)
    } else {
        fields.len() as int
    };
    assert(after[at] == (key, value));
    assert forall|i: int| 0 <= i < fields.len() && i != at implies #[trigger] after[i]
        == fields[i] by {}
    assert forall|other: Seq<char>| has_key(after, other) <==> (has_key(fields, other) || other
        == key) by {
        if has_key(after, other) && other != key {
            assert(fields[key_position(after, other)].0 == other);
        }
        if has_key(fields, other) {
            assert(after[key_position(fields, other)].0 == other);
        }
    }
    assert(key_position(after, key) == at);
    assert forall|other: Seq<char>| other != key && has_key(fields, other) implies value_of(
        after,
        other,
    ) == value_of(fields, other) by {
        assert(after[key_position(fields, other)].0 == other);
        assert(key_position(after, other) == key_position(fields, other));
    }
}

/// The collected fields carry exactly the keys of the pairs, and each key
/// holds the value of the last pair that carries it.
pub proof fn lemma_collected_values(pairs: Seq<(Seq<char>, Seq<char>)>)
    ensures
        forall|key: Seq<char>| has_key(collect_fields(pairs), key) <==> has_key(pairs, key),
        forall|i: int|
            0 <= i < pairs.len() && last_of_its_key(pairs, i) ==> value_of(
                collect_fields(pairs),
                (#[trigger] pairs[i]).0,
            ) == pairs[i].1,
    decreases pairs.len(),
{
    if pairs.len() > 0 {
        let front = pairs.drop_last();
        let last = pairs.last();
        lemma_collected_values(front);
        lemma_collected_keys_distinct(front);
        lemma_upsert_values(collect_fields(front), last.0, last.1);
        assert forall|key: Seq<char>| has_key(collect_fields(pairs), key) <==> has_key(
            pairs,
            key,
        ) by {
            if has_key(pairs, key) && key != last.0 {
                assert(front[key_position(pairs, key)].0 == key);
            }
            if has_key(front, key) {
                assert(pairs[key_position(front, key)].0 == key);
            }
            if key == last.0 {
                assert(pairs[pairs.len() - 1].0 == key);
            }
        }
        assert forall|i: int| 0 <= i < pairs.len() && last_of_its_key(pairs, i) implies value_of(
            collect_fields(pairs),
            (#[trigger] pairs[i]).0,
        ) == pairs[i].1 by {
            if i < front.len() {
                assert(pairs[pairs.len() - 1].0 != pairs[i].0);
                assert(front[i] == pairs[i]);
                assert forall|j: int| i < j < front.len() implies (#[trigger] front[j]).0
                    != front[i].0 by {
                    assert(front[j] == pairs[j]);
                }
                assert(has_key(front, pairs[i].0));
            }
        }
    } else {
        assert forall|key: Seq<char>| !has_key(pairs, key) by {}
    }
}

/// Whatever the pairs, the keys of the collected fields are distinct.
pub proof fn lemma_collected_keys_distinct(pairs: Seq<(Seq<char>, Seq<char>)>)
    ensures
        distinct_keys(collect_fields(pairs)),
    decreases pairs.len(),
{
    if pairs.len() > 0 {
        lemma_collected_keys_distinct(pairs.drop_last());
        lemma_upsert_keeps_keys_distinct(
            collect_fields(pairs.drop_last()),
            pairs.last().0,
            pairs.last().1,
        );
    }
}

/// Pairs whose keys are distinct are collected unchanged: each pair becomes
/// one field, in its place.
pub proof fn lemma_distinct_pairs_are_kept(pairs: Seq<(Seq<char>, Seq<char>)>)
    requires
        distinct_keys(pairs),
    ensures
        collect_fields(pairs) == pairs,
    decreases pairs.len(),
{
    if pairs.len() > 0 {
        let front = pairs.drop_last();
        assert(distinct_keys(front)) by {
            assert forall|i: int, j: int|
                0 <= i < front.len() && 0 <= j < front.len() && i != j implies (
                #[trigger] front[i]).0 != (#[trigger] front[j]).0 by {
                assert(front[i] == pairs[i] && front[j] == pairs[j]);
            }
        }
        lemma_distinct_pairs_are_kept(front);
        assert(!has_key(front, pairs.last().0)) by {
            if has_key(front, pairs.last().0) {
                let at = key_position(front, pairs.last().0);
                assert(pairs[at].0 == pairs[pairs.len() - 1].0);
            }
        }
        assert(front.push(pairs.last()) =~= pairs);
    } else {
        assert(pairs =~= Seq::empty());
    }
}

/// The cells of one row under their column names, in the order in which the
/// names first appeared. A name occurs once: a later cell under a name that
/// is already present takes the place of the earlier one.
#[derive(Debug)]
pub struct Record {
    fields: Vec<(String, String)>,
}

impl Record {
    /// The fields as pairs of key and value, in order.
    pub closed spec fn view(&self) -> Seq<(Seq<char>, Seq<char>)> {
        pair_texts(self.fields@)
    }

    #[verifier::type_invariant]
    spec fn keys_are_distinct(&self) -> bool {
        distinct_keys(pair_texts(self.fields@))
    }

    /// A record without fields.
    pub fn new() -> (record: Record)
        ensures
            record@ == Seq::<(Seq<char>, Seq<char>)>::empty(),
    {
        Record { fields: Vec::new() }
    }

    /// The number of fields.
    pub fn len(&self) -> (n: usize)
        ensures
            n == self@.len(),
    {
        self.fields.len()
    }

    /// The fields as pairs of key and value, in order.
    pub fn fields(&self) -> (pairs: &Vec<(String, String)>)
        ensures
            pair_texts(pairs@) == self@,
            distinct_keys(pair_texts(pairs@)),
    {
        proof {
            use_type_invariant(self);
        }
        &self.fields
    }

    /// The value stored under `key`, if there is one.
    pub fn get(&self, key: &str) -> (value: Option<&String>)
        ensures
            match value {
                Some(found) => has_key(self@, key@) && self@[key_position(self@, key@)].1
                    == found@,
                None => !has_key(self@, key@),
            },
    {
        proof {
            use_type_invariant(self);
        }
        let wanted = key.to_owned();
        let mut i: usize = 0;
        while i < self.fields.len()
            invariant
                i <= self.fields@.len(),
                wanted@ == key@,
                distinct_keys(pair_texts(self.fields@)),
                forall|j: int| 0 <= j < i ==> (#[trigger] pair_texts(self.fields@)[j]).0 != key@,
            decreases self.fields@.len() - i,
        {
            if self.fields[i].0 == wanted {
                assert(pair_texts(self.fields@)[i as int].0 == key@);
                return Some(&self.fields[i].1);
            }
            i = i + 1;
        }
        None
    }

    /// Stores `value` under `key`: in place of the value that the key had,
    /// or as a new last field.
    pub fn insert(&mut self, key: String, value: String)
        ensures
            final(self)@ == upsert(old(self)@, key@, value@),
    {
        proof {
            use_type_invariant(&*self);
            lemma_upsert_keeps_keys_distinct(self@, key@, value@);
        }
        let ghost before = self@;
        let mut fields: Vec<(String, String)> = Vec::new();
        std::mem::swap(&mut fields, &mut self.fields);
        let mut i: usize = 0;
        while i < fields.len()
            invariant
                i <= fields@.len(),
                pair_texts(fields@) == before,
                before == old(self)@,
                distinct_keys(before),
                forall|j: int| 0 <= j < i ==> (#[trigger] before[j]).0 != key@,
            decreases fields@.len() - i,
        {
            if fields[i].0 == key {
                assert(before[i as int].0 == key@);
                fields[i] = (key, value);
                assert(pair_texts(fields@) =~= upsert(before, key@, value@));
                self.fields = fields;
                return ;
            }
            i = i + 1;
        }
        fields.push((key, value));
        assert(pair_texts(fields@) =~= upsert(before, key@, value@));
        self.fields = fields;
    }

    /// The record of the row `row` under the column names `header`: each
    /// cell is stored under the name at its position, from left to right.
    pub fn from_row(header: &Vec<String>, row: &Vec<String>) -> (record: Record)
        ensures
            record@ == record_of(texts(header@), texts(row@)),
    {
        let width: usize = if header.len() <= row.len() {
            header.len()
        } else {
            row.len()
        };
        let ghost pairs = zip_cells(texts(header@), texts(row@));
        let mut record = Record::new();
        let mut i: usize = 0;
        while i < width
            invariant
                i <= width,
                width == pairs.len(),
                width <= header@.len(),
                width <= row@.len(),
                pairs == zip_cells(texts(header@), texts(row@)),
                record@ == collect_fields(pairs.take(i as int)),
            decreases width - i,
        {
            let key = header[i].clone();
            let value = row[i].clone();
            proof {
                let next = pairs.take(i + 1);
                assert(next.drop_last() =~= pairs.take(i as int));
            }
            record.insert(key, value);
            i = i + 1;
        }
        assert(pairs.take(width as int) =~= pairs);
        record
    }
}

} // verus!
