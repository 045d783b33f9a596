//! Made-up tables: one row after the other, one value for each column,
//! each value of the kind its column asks for.

use crate::number::{decimal, lemma_decimal_read_back, natural_of, number_text};
use crate::schema::{kind_named, kind_of, Column, ColumnSpec, GeneratorKind};
use crate::table::{
    distinct_keys, keys_of, lemma_position, lemma_with_entry, lookup, with_entry, Entries, Row,
};
use crate::text::views;
use fake::faker::address::en::{CityName, StreetName, ZipCode};
use fake::faker::color::raw::Color;
use fake::faker::internet::en::{FreeEmail, Password, Username};
use fake::faker::lorem::en::Paragraph;
use fake::faker::name::en::{FirstName, LastName};
use fake::locales::EN;
use fake::Fake;
use vstd::prelude::*;

pub use crate::export::write_data_to_csv;

verus! {

/// What is known of a value that was made up for a column of kind `kind`:
/// a password has eight to eleven characters, a number is one of 1 to 99
/// in decimal notation. Of the other kinds only the maker of the values
/// knows what they look like.
pub open spec fn value_fits(kind: GeneratorKind, value: Seq<char>) -> bool {
    match kind {
        GeneratorKind::Password => 8 <= value.len() < 12,
        GeneratorKind::Number => exists|n: nat| 1 <= n < 100 && value == #[trigger] decimal(n),
        _ => true,
    }
}

/// The row that comes of putting `values[0]` under the name of
/// `columns[0]`, then `values[1]` under the name of `columns[1]`, and so
/// on. Where two columns share a name, the later value takes the place
/// of the earlier one.
pub open spec fn filled(columns: Seq<Column>, values: Seq<Seq<char>>) -> Entries
    decreases columns.len(),
{
    if columns.len() == 0 {
        Seq::empty()
    } else {
        with_entry(
            filled(columns.drop_last(), values.drop_last()),
            columns.last().name,
            values.last(),
        )
    }
}

/// Whether `entries` is a row for `columns`: filled with one value for
/// each column, each of the kind of its column.
pub open spec fn row_fits(entries: Entries, columns: Seq<Column>) -> bool {
    exists|values: Seq<Seq<char>>|
        {
            &&& #[trigger] filled(columns, values) == entries
            &&& values.len() == columns.len()
            &&& forall|j: int| 0 <= j < columns.len() ==> value_fits(columns[j].kind, values[j])
        }
}

/// Whether every type name among `pairs` of column name and type name
/// refers to a kind.
pub open spec fn types_supported(pairs: Seq<(&str, &str)>) -> bool {
    forall|i: int| 0 <= i < pairs.len() ==> kind_named((#[trigger] pairs[i]).1@) is Some
}

/// The columns that `pairs` of column name and type name describe.
pub open spec fn columns_named(pairs: Seq<(&str, &str)>) -> Seq<Column> {
    Seq::new(
        pairs.len(),
        |i: int| Column { name: pairs[i].0@, kind: kind_named(pairs[i].1@).unwrap() },
    )
}

/// The names of `columns`, in order.
pub open spec fn names_of(columns: Seq<Column>) -> Seq<Seq<char>> {
    Seq::new(columns.len(), |j: int| columns[j].name)
}

/// Whether no two of `columns` share a name.
pub open spec fn distinct_names(columns: Seq<Column>) -> bool {
    forall|i: int, j: int|
        0 <= i < j < columns.len() ==> (#[trigger] columns[i]).name != (#[trigger] columns[j]).name
}

/// Whether no column behind column `j` has the name of column `j`.
pub open spec fn last_of_its_name(columns: Seq<Column>, j: int) -> bool {
    forall|k: int| j < k < columns.len() ==> (#[trigger] columns[k]).name != columns[j].name
}

/// Whether `name` is the name of one of `columns`.
pub open spec fn names_a_column(columns: Seq<Column>, name: Seq<char>) -> bool {
    exists|j: int| 0 <= j < columns.len() && (#[trigger] columns[j]).name == name
}

/// In a filled row no key occurs twice and every key is the name of a
/// column, so there are at most as many entries as columns.
pub proof fn lemma_filled_keys(columns: Seq<Column>, values: Seq<Seq<char>>)
    requires
        values.len() == columns.len(),
    ensures
        distinct_keys(filled(columns, values)),
        filled(columns, values).len() <= columns.len(),
        forall|i: int|
            0 <= i < filled(columns, values).len() ==> names_a_column(
                columns,
                (#[trigger] filled(columns, values)[i]).0,
            ),
    decreases columns.len(),
{
    if columns.len() > 0 {
        let front = columns.drop_last();
        let before = filled(front, values.drop_last());
        let name = columns.last().name;
        let after = filled(columns, values);
        lemma_filled_keys(front, values.drop_last());
        lemma_with_entry(before, name, values.last());
        assert(after == with_entry(before, name, values.last()));
        assert(keys_of(after).len() == after.len());
        assert(keys_of(before).len() == before.len());
        assert forall|i: int| 0 <= i < after.len() implies names_a_column(
            columns,
            (#[trigger] after[i]).0,
        ) by {
            assert(keys_of(after)[i] == after[i].0);
            if i < before.len() {
                assert(keys_of(before)[i] == before[i].0);
                assert(names_a_column(front, before[i].0));
                let j = choose|j: int|
                    0 <= j < front.len() && (#[trigger] front[j]).name == before[i].0;
                assert(columns[j] == front[j]);
            } else {
                assert(columns[columns.len() - 1].name == name);
            }
        }
    }
}

/// In a filled row there is a value under the name of every column: the
/// value of that column, unless a later column has the same name.
pub proof fn lemma_filled_value(columns: Seq<Column>, values: Seq<Seq<char>>, j: int)
    requires
        values.len() == columns.len(),
        0 <= j < columns.len(),
    ensures
        lookup(filled(columns, values), columns[j].name) is Some,
        last_of_its_name(columns, j) ==> lookup(filled(columns, values), columns[j].name) == Some(
            values[j],
        ),
    decreases columns.len(),
{
    let front = columns.drop_last();
    let before = filled(front, values.drop_last());
    let last = columns.len() - 1;
    let name = columns.last().name;
    let after = filled(columns, values);
    lemma_filled_keys(front, values.drop_last());
    lemma_with_entry(before, name, values.last());
    assert(after == with_entry(before, name, values.last()));
    if j < last {
        lemma_filled_value(front, values.drop_last(), j);
        assert(front[j] == columns[j]);
        assert(values.drop_last()[j] == values[j]);
        if columns[j].name == name {
            assert(columns[last].name == columns[j].name);
            assert(!last_of_its_name(columns, j));
        } else {
            assert(lookup(after, columns[j].name) == lookup(before, columns[j].name));
            if last_of_its_name(columns, j) {
                assert forall|k: int| j < k < front.len() implies (#[trigger] front[k]).name
                    != front[j].name by {
                    assert(columns[k].name != columns[j].name);
                }
            }
        }
    }
}

/// Where no two columns share a name, a filled row has one entry for
/// each column, in the order of the columns: the column's name and its
/// value.
pub proof fn lemma_filled_distinct_names(columns: Seq<Column>, values: Seq<Seq<char>>)
    requires
        values.len() == columns.len(),
        distinct_names(columns),
    ensures
        filled(columns, values) == Seq::new(
            columns.len(),
            |j: int| (columns[j].name, values[j]),
        ),
    decreases columns.len(),
{
    let paired = Seq::new(columns.len(), |j: int| (columns[j].name, values[j]));
    if columns.len() == 0 {
        assert(filled(columns, values) =~= paired);
    } else {
        let front = columns.drop_last();
        let before = filled(front, values.drop_last());
        let name = columns.last().name;
        assert forall|i: int, j: int| 0 <= i < j < front.len() implies (#[trigger] front[i]).name
            != (#[trigger] front[j]).name by {
            assert(front[i] == columns[i] && front[j] == columns[j]);
        }
        lemma_filled_distinct_names(front, values.drop_last());
        assert forall|i: int| 0 <= i < before.len() implies (#[trigger] before[i]).0 != name by {
            assert(before[i].0 == columns[i].name);
            assert(columns[columns.len() - 1].name == name);
        }
        lemma_position(before, name, before.len() as int);
        assert(filled(columns, values) =~= paired);
    }
}

/// A row for columns no two of which share a name has exactly one entry
/// for each column, and its keys are the column names in their order.
pub proof fn lemma_row_has_one_entry_for_each_column(entries: Entries, columns: Seq<Column>)
    requires
        row_fits(entries, columns),
        distinct_names(columns),
    ensures
        entries.len() == columns.len(),
        keys_of(entries) == names_of(columns),
{
    let values = choose|values: Seq<Seq<char>>|
        {
            &&& #[trigger] filled(columns, values) == entries
            &&& values.len() == columns.len()
            &&& forall|j: int| 0 <= j < columns.len() ==> value_fits(columns[j].kind, values[j])
        };
    lemma_filled_distinct_names(columns, values);
    assert(keys_of(entries) =~= names_of(columns));
}

/// In a row for any columns no key occurs twice, every key is the name of
/// a column, and there is a value under the name of every column.
pub proof fn lemma_row_is_keyed_by_column_names(entries: Entries, columns: Seq<Column>)
    requires
        row_fits(entries, columns),
    ensures
        distinct_keys(entries),
        entries.len() <= columns.len(),
        forall|i: int|
            0 <= i < entries.len() ==> names_a_column(columns, (#[trigger] entries[i]).0),
        forall|j: int|
            0 <= j < columns.len() ==> lookup(entries, (#[trigger] columns[j]).name) is Some,
{
    let values = choose|values: Seq<Seq<char>>|
        {
            &&& #[trigger] filled(columns, values) == entries
            &&& values.len() == columns.len()
            &&& forall|j: int| 0 <= j < columns.len() ==> value_fits(columns[j].kind, values[j])
        };
    lemma_filled_keys(columns, values);
    assert forall|j: int| 0 <= j < columns.len() implies lookup(
        entries,
        (#[trigger] columns[j]).name,
    ) is Some by {
        lemma_filled_value(columns, values, j);
    }
}

/// In a row for `columns`, the value under the name of a column is of
/// the kind of that column, unless a later column has the same name.
pub proof fn lemma_row_value_fits_its_column(entries: Entries, columns: Seq<Column>, j: int)
    requires
        row_fits(entries, columns),
        0 <= j < columns.len(),
        last_of_its_name(columns, j),
    ensures
        lookup(entries, columns[j].name) matches Some(value) && value_fits(columns[j].kind, value),
{
    let values = choose|values: Seq<Seq<char>>|
        {
            &&& #[trigger] filled(columns, values) == entries
            &&& values.len() == columns.len()
            &&& forall|j: int| 0 <= j < columns.len() ==> value_fits(columns[j].kind, values[j])
        };
    lemma_filled_value(columns, values, j);
}

/// A value made up for a column of numbers reads as a number from 1 to
/// 99.
pub proof fn lemma_number_value_reads_back(value: Seq<char>)
    requires
        value_fits(GeneratorKind::Number, value),
    ensures
        natural_of(value) matches Some(n) && 1 <= n < 100,
{
    let n = choose|n: nat| 1 <= n < 100 && value == #[trigger] decimal(n);
    lemma_decimal_read_back(n);
}

/// In a row for `columns`, under the name of a column of numbers stands
/// a text that reads as a number from 1 to 99, unless a later column has
/// the same name.
pub proof fn lemma_number_column_reads_back(entries: Entries, columns: Seq<Column>, j: int)
    requires
        row_fits(entries, columns),
        0 <= j < columns.len(),
        columns[j].kind == GeneratorKind::Number,
        last_of_its_name(columns, j),
    ensures
        lookup(entries, columns[j].name) matches Some(value) && natural_of(value) matches Some(n)
            && 1 <= n < 100,
{
    lemma_row_value_fits_its_column(entries, columns, j);
    lemma_number_value_reads_back(lookup(entries, columns[j].name).unwrap());
}

/// In a row for `columns`, under the name of a column of passwords stands
/// a text of eight to eleven characters, unless a later column has the
/// same name.
pub proof fn lemma_password_column_length(entries: Entries, columns: Seq<Column>, j: int)
    requires
        row_fits(entries, columns),
        0 <= j < columns.len(),
        columns[j].kind == GeneratorKind::Password,
        last_of_its_name(columns, j),
    ensures
        lookup(entries, columns[j].name) matches Some(value) && 8 <= value.len() < 12,
{
    lemma_row_value_fits_its_column(entries, columns, j);
}

/// `FirstName` of the `fake` crate, in English: a first name picked at
/// random from the crate's list. Nothing is claimed of the text.
#[verifier::external_body]
fn fake_first_name() -> String {
    FirstName().fake()
}

/// `LastName` of the `fake` crate, in English: a last name picked at
/// random from the crate's list. Nothing is claimed of the text.
#[verifier::external_body]
fn fake_last_name() -> String {
    LastName().fake()
}

/// `CityName` of the `fake` crate, in English: a city name put together
/// at random. Nothing is claimed of the text.
#[verifier::external_body]
fn fake_city_name() -> String {
    CityName().fake()
}

/// `StreetName` of the `fake` crate, in English: a street name put
/// together at random. Nothing is claimed of the text.
#[verifier::external_body]
fn fake_street_name() -> String {
    StreetName().fake()
}

/// `ZipCode` of the `fake` crate, in English: a postal code made at
/// random after one of the crate's patterns. Nothing is claimed of the
/// text.
#[verifier::external_body]
fn fake_zip_code() -> String {
    ZipCode().fake()
}

/// `FreeEmail` of the `fake` crate, in English: a user name, `@` and a
/// mail provider, both picked at random. Nothing is claimed of the text.
#[verifier::external_body]
fn fake_email() -> String {
    FreeEmail().fake()
}

/// `Username` of the `fake` crate, in English: a handle put together at
/// random. Nothing is claimed of the text.
#[verifier::external_body]
fn fake_username() -> String {
    Username().fake()
}

/// `Password` of the `fake` crate, in English, for the lengths from
/// `shortest` up to but not including `limit`: the crate draws a length
/// from that range and then as many characters from its list of letters
/// and digits. It panics on an empty range, which `requires` leaves out.
#[verifier::external_body]
fn fake_password(shortest: usize, limit: usize) -> (text: String)
    requires
        shortest < limit,
    ensures
        shortest <= text@.len() < limit,
{
    Password(shortest..limit).fake()
}

/// `Color` of the `fake` crate, in English: a colour drawn at random and
/// written in several notations. Nothing is claimed of the text.
#[verifier::external_body]
fn fake_color() -> String {
    Color(EN).fake()
}

/// `Paragraph` of the `fake` crate, in English, with `fewest` up to but
/// not including `limit` sentences of random words. It panics on an empty
/// range, which `requires` leaves out. Nothing is claimed of the text.
#[verifier::external_body]
fn fake_paragraph(fewest: usize, limit: usize) -> String
    requires
        fewest < limit,
{
    Paragraph(fewest..limit).fake()
}

/// A range faked as `u32` by the `fake` crate: a number drawn at random
/// from `low` up to but not including `limit`. It panics on an empty
/// range, which `requires` leaves out.
#[verifier::external_body]
fn fake_number(low: u32, limit: u32) -> (n: u32)
    requires
        low < limit,
    ensures
        low <= n < limit,
{
    (low..limit).fake()
}

/// Makes up a value of the given kind.
pub fn fake_value(kind: GeneratorKind) -> (value: String)
    ensures
        value_fits(kind, value@),
{
    match kind {
        GeneratorKind::FirstName => fake_first_name(),
        GeneratorKind::LastName => fake_last_name(),
        GeneratorKind::CityName => fake_city_name(),
        GeneratorKind::StreetName => fake_street_name(),
        GeneratorKind::ZipCode => fake_zip_code(),
        GeneratorKind::Email => fake_email(),
        GeneratorKind::Username => fake_username(),
        GeneratorKind::Password => fake_password(8, 12),
        GeneratorKind::Color => fake_color(),
        GeneratorKind::Paragraph => fake_paragraph(1, 3),
        GeneratorKind::Number => {
            let n = fake_number(1, 100);
            let text = number_text(n);
            assert(text@ == decimal(n as nat));
            text
        },
    }
}

/// Makes up one row: a value for each column, under the column's name.
pub fn generate_row(columns: &Vec<ColumnSpec>) -> (row: Row)
    ensures
        row_fits(row@, views(columns@)),
{
    let mut row = Row::new();
    let ghost mut values: Seq<Seq<char>> = Seq::empty();
    let mut j: usize = 0;
    proof {
        assert(views(columns@).take(0).len() == 0);
    }
    while j < columns.len()
        invariant
            j <= columns.len(),
            values.len() == j,
            row@ == filled(views(columns@).take(j as int), values),
            forall|k: int| 0 <= k < j ==> value_fits(columns@[k].kind, #[trigger] values[k]),
        decreases columns.len() - j,
    {
        let column = &columns[j];
        let value = fake_value(column.kind);
        proof {
            let before = views(columns@).take(j as int);
            let after = views(columns@).take(j + 1);
            assert(after.drop_last() == before);
            assert(after.last() == column@);
            assert(values.push(value@).drop_last() == values);
            values = values.push(value@);
        }
        row.insert(column.name.clone(), value);
        j += 1;
    }
    proof {
        assert(views(columns@).take(j as int) == views(columns@));
        assert(filled(views(columns@), values) == row@);
    }
    row
}

/// Makes up a table of `rows` rows for `columns`. Without columns the
/// rows are empty; without rows so is the table.
pub fn generate(columns: &Vec<ColumnSpec>, rows: usize) -> (table: Vec<Row>)
    ensures
        table@.len() == rows,
        forall|r: int| 0 <= r < rows ==> row_fits(#[trigger] table@[r]@, views(columns@)),
{
    let mut table: Vec<Row> = Vec::new();
    let mut r: usize = 0;
    while r < rows
        invariant
            r <= rows,
            table@.len() == r,
            forall|k: int| 0 <= k < r ==> row_fits(#[trigger] table@[k]@, views(columns@)),
        decreases rows - r,
    {
        let row = generate_row(columns);
        table.push(row);
        r += 1;
    }
    table
}

/// Whether `fake_type` names a kind of value that can be made up.
pub fn check_valid_data_type(fake_type: &str) -> (valid: bool)
    ensures
        valid == kind_named(fake_type@).is_some(),
{
    kind_of(fake_type).is_some()
}

/// The columns that `pairs` describe, where every type name refers to a
/// kind.
fn columns_of(pairs: &Vec<(&str, &str)>) -> (columns: Option<Vec<ColumnSpec>>)
    ensures
        match columns {
            Some(columns) => types_supported(pairs@) && views(columns@) == columns_named(pairs@),
            None => !types_supported(pairs@),
        },
{
    let mut columns: Vec<ColumnSpec> = Vec::new();
    let mut i: usize = 0;
    while i < pairs.len()
        invariant
            i <= pairs.len(),
            columns@.len() == i,
            forall|k: int| 0 <= k < i ==> kind_named((#[trigger] pairs@[k]).1@) is Some,
            forall|k: int| 0 <= k < i ==> (#[trigger] columns@[k])@ == columns_named(pairs@)[k],
        decreases pairs.len() - i,
    {
        let (name, kind_name) = pairs[i];
        match kind_of(kind_name) {
            Some(kind) => {
                columns.push(ColumnSpec { name: name.to_owned(), kind });
            },
            None => {
                return None;
            },
        }
        i += 1;
    }
    assert(views(columns@) =~= columns_named(pairs@));
    Some(columns)
}

/// Whether every type name among `columns` refers to a kind.
pub fn validate_columns(columns: Vec<(&str, &str)>) -> (valid: bool)
    ensures
        valid == types_supported(columns@),
{
    columns_of(&columns).is_some()
}

/// Makes up a table of `rows` rows for columns given as pairs of column
/// name and type name. Where a type name refers to no kind, the table is
/// empty.
pub fn generate_fake_data_with_types(columns: Vec<(&str, &str)>, rows: usize) -> (data: Vec<Row>)
    ensures
        !types_supported(columns@) ==> data@.len() == 0,
        types_supported(columns@) ==> data@.len() == rows,
        forall|r: int|
            0 <= r < data@.len() ==> row_fits(#[trigger] data@[r]@, columns_named(columns@)),
{
    match columns_of(&columns) {
        Some(columns) => generate(&columns, rows),
        None => Vec::new(),
    }
}

} // verus!
