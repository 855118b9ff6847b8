//! A row of a RouterOS table as the device answers it, and what its fields say.

use crate::diff::{flag_set, passive_flag_is_true};
use crate::error::{outcome, Error, ErrorView};
use crate::number::{parse_decimal, read_decimal};
use crate::text::{owned, same, trim_end_char, without_trailing};
use vstd::prelude::*;

verus! {

/// What a row holds: the fields by name. A field can be there without a value.
pub type RowView = Map<Seq<char>, Option<Seq<char>>>;

/// What a list of fields holds. Of two with the same name the later one stands.
pub open spec fn fields_of(entries: Seq<(Seq<char>, Option<Seq<char>>)>) -> RowView
    decreases entries.len(),
{
    if entries.len() == 0 {
        Map::empty()
    } else {
        fields_of(entries.drop_last()).insert(entries.last().0, entries.last().1)
    }
}

/// A row of a RouterOS table.
#[derive(Debug)]
pub struct Row {
    entries: Vec<(String, Option<String>)>,
}

impl View for Row {
    type V = RowView;

    closed spec fn view(&self) -> RowView {
        fields_of(self.entries.deep_view())
    }
}

impl DeepView for Row {
    type V = RowView;

    open spec fn deep_view(&self) -> RowView {
        self@
    }
}

impl Row {
    /// A row without fields.
    pub fn new() -> (r: Row)
        ensures
            r@ == Map::<Seq<char>, Option<Seq<char>>>::empty(),
    {
        Row { entries: Vec::new() }
    }

    /// Puts a field into the row, in place of one with the same name.
    pub fn insert(&mut self, key: String, value: Option<String>)
        ensures
            final(self)@ == old(self)@.insert(key@, value.deep_view()),
    {
        let ghost before = self.entries.deep_view();
        let ghost entry = (key@, value.deep_view());
        self.entries.push((key, value));
        proof {
            let after = self.entries.deep_view();
            assert(after =~= before.push(entry));
            assert(after.drop_last() =~= before);
        }
    }

    /// The index of the field `key`, if the row has it.
    fn position(&self, key: &str) -> (r: Option<usize>)
        ensures
            match r {
                Some(i) => i < self.entries@.len() && self@.contains_key(key@) && self@[key@]
                    == self.entries.deep_view()[i as int].1,
                None => !self@.contains_key(key@),
            },
    {
        let ghost e = self.entries.deep_view();
        let mut n: usize = self.entries.len();
        assert(e.take(n as int) =~= e);
        while n > 0
            invariant
                n <= self.entries@.len(),
                e == self.entries.deep_view(),
                fields_of(e.take(n as int)).contains_key(key@) == self@.contains_key(key@),
                fields_of(e.take(n as int)).contains_key(key@) ==> fields_of(
                    e.take(n as int),
                )[key@] == self@[key@],
            decreases n,
        {
            assert(e.take(n as int).drop_last() =~= e.take(n - 1));
            assert(e.take(n as int).last() == e[n - 1]);
            if same(self.entries[n - 1].0.as_str(), key) {
                return Some(n - 1);
            }
            n = n - 1;
        }
        None
    }

    /// Whether the row has the field, with or without a value.
    pub fn contains_key(&self, key: &str) -> (r: bool)
        ensures
            r == self@.contains_key(key@),
    {
        self.position(key).is_some()
    }
}

/// The value of a field, if the row has the field and the field has a value.
pub open spec fn value_of(row: RowView, key: Seq<char>) -> Option<Seq<char>> {
    if row.contains_key(key) {
        row[key]
    } else {
        None
    }
}

/// The value of a field, empty if there is none.
pub open spec fn value_or_empty(row: RowView, key: Seq<char>) -> Seq<char> {
    match value_of(row, key) {
        Some(v) => v,
        None => ""@,
    }
}

/// Whether a field is there, as a flag that is set by being there.
pub open spec fn presence(row: RowView, key: Seq<char>) -> Option<Seq<char>> {
    if row.contains_key(key) {
        Some(""@)
    } else {
        None
    }
}

/// The value of a field that the row with this `.id` must have.
pub open spec fn required(row: RowView, key: Seq<char>, id: Seq<char>) -> Result<
    Seq<char>,
    ErrorView,
> {
    match value_of(row, key) {
        Some(v) => Ok(v),
        None => Err(ErrorView::MissingField { id, field: key }),
    }
}

/// The row's `.id`.
pub open spec fn id_of(row: RowView) -> Result<Seq<char>, ErrorView> {
    match value_of(row, ".id"@) {
        Some(v) => Ok(v),
        None => Err(ErrorView::MissingId),
    }
}

/// A field that is a number of 16 bits or absent.
pub open spec fn u16_of(row: RowView, key: Seq<char>) -> Result<Option<u16>, ErrorView> {
    match value_of(row, key) {
        None => Ok(None),
        Some(value) => match parse_decimal(value, u16::MAX as nat) {
            Some(n) => Ok(Some(n as u16)),
            None => Err(ErrorView::NotU16 { field: key, value }),
        },
    }
}

/// A field that is a number of seconds, with or without the unit, or absent.
pub open spec fn seconds_of(row: RowView, key: Seq<char>) -> Result<Option<u16>, ErrorView> {
    match value_of(row, key) {
        None => Ok(None),
        Some(value) => match parse_decimal(trim_end_char(value, 's'), u16::MAX as nat) {
            Some(n) => Ok(Some(n as u16)),
            None => Err(ErrorView::NotKeepalive { field: key, value }),
        },
    }
}

/// The value of a field, if there is one.
pub fn get<'a>(row: &'a Row, key: &str) -> (r: Option<&'a str>)
    ensures
        r.deep_view() == value_of(row@, key@),
{
    match row.position(key) {
        Some(i) => {
            assert(row.entries.deep_view()[i as int] == row.entries@[i as int].deep_view());
            match &row.entries[i].1 {
                Some(v) => Some(v.as_str()),
                None => None,
            }
        },
        None => None,
    }
}

/// A copy of the value of a field, if there is one.
pub fn get_text(row: &Row, key: &str) -> (r: Option<String>)
    ensures
        r.deep_view() == value_of(row@, key@),
{
    match get(row, key) {
        Some(v) => Some(owned(v)),
        None => None,
    }
}

/// A copy of the value of a field, empty if there is none.
pub fn get_or_empty(row: &Row, key: &str) -> (r: String)
    ensures
        r@ == value_or_empty(row@, key@),
{
    match get(row, key) {
        Some(v) => owned(v),
        None => owned(""),
    }
}

/// A copy of the value of a field that the row with this `.id` must have.
pub fn get_required(row: &Row, key: &str, id: &str) -> (r: Result<String, Error>)
    ensures
        outcome(r) == required(row@, key@, id@),
{
    match get(row, key) {
        Some(v) => Ok(owned(v)),
        None => Err(Error::MissingField { id: owned(id), field: owned(key) }),
    }
}

/// The row's `.id`.
pub fn get_id(row: &Row) -> (r: Result<String, Error>)
    ensures
        outcome(r) == id_of(row@),
{
    match get(row, ".id") {
        Some(v) => Ok(owned(v)),
        None => Err(Error::MissingId),
    }
}

/// Whether a flag that carries its value is set.
pub fn get_bool_flag(row: &Row, key: &str) -> (r: bool)
    ensures
        r == flag_set(value_of(row@, key@)),
{
    passive_flag_is_true(get(row, key))
}

/// Whether a flag that is set by being there is set: `passive` stands in the row of a passive
/// template, without a value, and is missing from any other. The result has the form that
/// [`passive_flag_is_true`] takes.
pub fn get_flag_presence(row: &Row, key: &str) -> (r: Option<String>)
    ensures
        r.deep_view() == presence(row@, key@),
{
    if row.contains_key(key) {
        Some(owned(""))
    } else {
        None
    }
}

/// A field that is a number of 16 bits or absent.
pub fn get_opt_u16(row: &Row, key: &str) -> (r: Result<Option<u16>, Error>)
    ensures
        outcome(r) == u16_of(row@, key@),
{
    match get(row, key) {
        None => Ok(None),
        Some(v) => match read_decimal(v, 65535) {
            Some(n) => Ok(Some(n as u16)),
            None => Err(Error::NotU16 { field: owned(key), value: owned(v) }),
        },
    }
}

/// A field that is a number of seconds or absent. RouterOS answers `25s` where `25` was set.
pub fn get_opt_keepalive_seconds(row: &Row, key: &str) -> (r: Result<Option<u16>, Error>)
    ensures
        outcome(r) == seconds_of(row@, key@),
{
    match get(row, key) {
        None => Ok(None),
        Some(v) => match read_decimal(without_trailing(v, 's').as_str(), 65535) {
            Some(n) => Ok(Some(n as u16)),
            None => Err(Error::NotKeepalive { field: owned(key), value: owned(v) }),
        },
    }
}

} // verus!
