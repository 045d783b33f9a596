//! Column lists: the kinds of made-up values a column can hold,
//! and the parser for the `name:type,name:type` notation.

use crate::text::{joined, pieces, same_text, split, trim, trimmed, views};
use vstd::prelude::*;
use vstd::string::StringExecFns;

verus! {

/// The kinds of value that can be made up for a column.
#[derive(Clone, Copy, Debug, PartialEq, Eq, Structural)]
pub enum GeneratorKind {
    FirstName,
    LastName,
    CityName,
    StreetName,
    ZipCode,
    Email,
    Username,
    Password,
    Color,
    Paragraph,
    Number,
}

/// One column: its name and the kind of its values.
#[derive(Debug, PartialEq, Eq)]
pub struct ColumnSpec {
    pub name: String,
    pub kind: GeneratorKind,
}

/// What a `ColumnSpec` stands for.
pub struct Column {
    pub name: Seq<char>,
    pub kind: GeneratorKind,
}

impl View for ColumnSpec {
    type V = Column;

    open spec fn view(&self) -> Column {
        Column { name: self.name@, kind: self.kind }
    }
}

/// Why a column list was turned down.
#[derive(Debug, PartialEq, Eq)]
pub enum SchemaError {
    /// A token that is not of the form `name:type`; it is handed back as
    /// it was written.
    MalformedColumnToken(String),
    /// A type that names no `GeneratorKind`; the name is handed back.
    UnsupportedGeneratorKind(String),
}

/// What a `SchemaError` stands for.
pub enum SchemaFault {
    MalformedColumnToken(Seq<char>),
    UnsupportedGeneratorKind(Seq<char>),
}

impl View for SchemaError {
    type V = SchemaFault;

    open spec fn view(&self) -> SchemaFault {
        match self {
            SchemaError::MalformedColumnToken(token) => SchemaFault::MalformedColumnToken(token@),
            SchemaError::UnsupportedGeneratorKind(name) => SchemaFault::UnsupportedGeneratorKind(
                name@,
            ),
        }
    }
}

/// The message that reports `fault`, which names what was turned down.
pub open spec fn fault_message(fault: SchemaFault) -> Seq<char> {
    match fault {
        SchemaFault::MalformedColumnToken(token) => "Invalid column format '"@ + token
            + "'. Use 'name:type'."@,
        SchemaFault::UnsupportedGeneratorKind(name) => "Unsupported fake type '"@ + name + "'."@,
    }
}

impl SchemaError {
    /// The message that reports this error.
    pub fn message(&self) -> (text: String)
        ensures
            text@ == fault_message(self@),
    {
        match self {
            SchemaError::MalformedColumnToken(token) => {
                let mut text = joined("Invalid column format '", token.as_str());
                text.append("'. Use 'name:type'.");
                text
            },
            SchemaError::UnsupportedGeneratorKind(name) => {
                let mut text = joined("Unsupported fake type '", name.as_str());
                text.append("'.");
                text
            },
        }
    }
}

/// The name by which a column list refers to `kind`.
pub open spec fn name_of(kind: GeneratorKind) -> Seq<char> {
    match kind {
        GeneratorKind::FirstName => "FirstName"@,
        GeneratorKind::LastName => "LastName"@,
        GeneratorKind::CityName => "CityName"@,
        GeneratorKind::StreetName => "StreetName"@,
        GeneratorKind::ZipCode => "ZipCode"@,
        GeneratorKind::Email => "Email"@,
        GeneratorKind::Username => "Username"@,
        GeneratorKind::Password => "Password"@,
        GeneratorKind::Color => "Color"@,
        GeneratorKind::Paragraph => "Paragraph"@,
        GeneratorKind::Number => "Number"@,
    }
}

/// The kind that `name` refers to, if it refers to one. Names are
/// compared letter for letter.
pub open spec fn kind_named(name: Seq<char>) -> Option<GeneratorKind> {
    if name == name_of(GeneratorKind::FirstName) {
        Some(GeneratorKind::FirstName)
    } else if name == name_of(GeneratorKind::LastName) {
        Some(GeneratorKind::LastName)
    } else if name == name_of(GeneratorKind::CityName) {
        Some(GeneratorKind::CityName)
    } else if name == name_of(GeneratorKind::StreetName) {
        Some(GeneratorKind::StreetName)
    } else if name == name_of(GeneratorKind::ZipCode) {
        Some(GeneratorKind::ZipCode)
    } else if name == name_of(GeneratorKind::Email) {
        Some(GeneratorKind::Email)
    } else if name == name_of(GeneratorKind::Username) {
        Some(GeneratorKind::Username)
    } else if name == name_of(GeneratorKind::Password) {
        Some(GeneratorKind::Password)
    } else if name == name_of(GeneratorKind::Color) {
        Some(GeneratorKind::Color)
    } else if name == name_of(GeneratorKind::Paragraph) {
        Some(GeneratorKind::Paragraph)
    } else if name == name_of(GeneratorKind::Number) {
        Some(GeneratorKind::Number)
    } else {
        None
    }
}

/// Whether `token` has the form `name:type`: exactly one colon.
pub open spec fn well_formed(token: Seq<char>) -> bool {
    pieces(token, ':').len() == 2
}

/// The column name that `token` gives: what stands before its colon,
/// without the white space around it.
pub open spec fn name_in(token: Seq<char>) -> Seq<char> {
    trimmed(pieces(token, ':')[0])
}

/// The type name that `token` gives: what stands behind its colon,
/// without the white space around it.
pub open spec fn type_in(token: Seq<char>) -> Seq<char> {
    trimmed(pieces(token, ':')[1])
}

/// The position of the first token that is not well formed, or
/// `tokens.len()` where all are.
pub open spec fn first_malformed(tokens: Seq<Seq<char>>) -> int
    decreases tokens.len(),
{
    if tokens.len() == 0 || !well_formed(tokens[0]) {
        0
    } else {
        1 + first_malformed(tokens.drop_first())
    }
}

/// The position of the first token whose type names no kind, or
/// `tokens.len()` where there is none.
pub open spec fn first_unsupported(tokens: Seq<Seq<char>>) -> int
    decreases tokens.len(),
{
    if tokens.len() == 0 || kind_named(type_in(tokens[0])) is None {
        0
    } else {
        1 + first_unsupported(tokens.drop_first())
    }
}

/// The column that a well-formed token with a supported type describes.
pub open spec fn column_in(token: Seq<char>) -> Column {
    Column { name: name_in(token), kind: kind_named(type_in(token)).unwrap() }
}

/// What a column list means. Its tokens stand between commas.
/// A token that is not well formed is an error, the first of them if
/// there are several; failing that, so is a type that names no kind, again
/// the first; failing both, every token describes one column.
pub open spec fn parsed(list: Seq<char>) -> Result<Seq<Column>, SchemaFault> {
    let tokens = pieces(list, ',');
    let bad = first_malformed(tokens);
    let odd = first_unsupported(tokens);
    if 0 <= bad < tokens.len() {
        Err(SchemaFault::MalformedColumnToken(tokens[bad]))
    } else if 0 <= odd < tokens.len() {
        Err(SchemaFault::UnsupportedGeneratorKind(type_in(tokens[odd])))
    } else {
        Ok(Seq::new(tokens.len(), |i: int| column_in(tokens[i])))
    }
}

/// `first_malformed` is the one position before which every token is well
/// formed and at which one is not, or the tokens end.
pub proof fn lemma_first_malformed(tokens: Seq<Seq<char>>, k: int)
    requires
        0 <= k <= tokens.len(),
        forall|i: int| 0 <= i < k ==> well_formed(#[trigger] tokens[i]),
        k < tokens.len() ==> !well_formed(tokens[k]),
    ensures
        first_malformed(tokens) == k,
    decreases tokens.len(),
{
    if tokens.len() == 0 || !well_formed(tokens[0]) {
    } else {
        let rest = tokens.drop_first();
        assert forall|i: int| 0 <= i < k - 1 implies well_formed(#[trigger] rest[i]) by {
            assert(rest[i] == tokens[i + 1]);
        }
        lemma_first_malformed(rest, k - 1);
    }
}

/// `first_unsupported` is the one position before which every token names
/// a kind and at which one does not, or the tokens end.
pub proof fn lemma_first_unsupported(tokens: Seq<Seq<char>>, k: int)
    requires
        0 <= k <= tokens.len(),
        forall|i: int| 0 <= i < k ==> kind_named(type_in(#[trigger] tokens[i])) is Some,
        k < tokens.len() ==> kind_named(type_in(tokens[k])) is None,
    ensures
        first_unsupported(tokens) == k,
    decreases tokens.len(),
{
    if tokens.len() == 0 || kind_named(type_in(tokens[0])) is None {
    } else {
        let rest = tokens.drop_first();
        assert forall|i: int| 0 <= i < k - 1 implies kind_named(type_in(#[trigger] rest[i]))
            is Some by {
            assert(rest[i] == tokens[i + 1]);
        }
        lemma_first_unsupported(rest, k - 1);
    }
}

/// The kind that `name` refers to, if it refers to one.
pub fn kind_of(name: &str) -> (kind: Option<GeneratorKind>)
    ensures
        kind == kind_named(name@),
{
    if same_text(name, "FirstName") {
        Some(GeneratorKind::FirstName)
    } else if same_text(name, "LastName") {
        Some(GeneratorKind::LastName)
    } else if same_text(name, "CityName") {
        Some(GeneratorKind::CityName)
    } else if same_text(name, "StreetName") {
        Some(GeneratorKind::StreetName)
    } else if same_text(name, "ZipCode") {
        Some(GeneratorKind::ZipCode)
    } else if same_text(name, "Email") {
        Some(GeneratorKind::Email)
    } else if same_text(name, "Username") {
        Some(GeneratorKind::Username)
    } else if same_text(name, "Password") {
        Some(GeneratorKind::Password)
    } else if same_text(name, "Color") {
        Some(GeneratorKind::Color)
    } else if same_text(name, "Paragraph") {
        Some(GeneratorKind::Paragraph)
    } else if same_text(name, "Number") {
        Some(GeneratorKind::Number)
    } else {
        None
    }
}

/// Takes a column list apart into pairs of column name and type
/// name, without looking at what the type names say. The first token that
/// is not well formed is an error.
pub fn column_pairs<'a>(list: &'a str) -> (found: Result<Vec<(&'a str, &'a str)>, SchemaError>)
    ensures
        match found {
            Ok(pairs) => {
                let tokens = pieces(list@, ',');
                &&& first_malformed(tokens) == tokens.len()
                &&& pairs@.len() == tokens.len()
                &&& forall|i: int|
                    0 <= i < tokens.len() ==> (#[trigger] pairs@[i]).0@ == name_in(tokens[i])
                        && pairs@[i].1@ == type_in(tokens[i])
            },
            Err(e) => {
                let tokens = pieces(list@, ',');
                let bad = first_malformed(tokens);
                0 <= bad < tokens.len() && e@ == SchemaFault::MalformedColumnToken(tokens[bad])
            },
        },
{
    let tokens = split(list, ',');
    let mut pairs: Vec<(&'a str, &'a str)> = Vec::new();
    let mut i: usize = 0;
    while i < tokens.len()
        invariant
            i <= tokens.len(),
            views(tokens@) == pieces(list@, ','),
            pairs@.len() == i,
            forall|j: int| 0 <= j < i ==> well_formed(#[trigger] views(tokens@)[j]),
            forall|j: int|
                0 <= j < i ==> (#[trigger] pairs@[j]).0@ == name_in(views(tokens@)[j])
                    && pairs@[j].1@ == type_in(views(tokens@)[j]),
        decreases tokens.len() - i,
    {
        let token = tokens[i];
        assert(views(tokens@)[i as int] == token@);
        let parts = split(token, ':');
        assert(views(parts@).len() == parts@.len());
        if parts.len() != 2 {
            proof {
                lemma_first_malformed(views(tokens@), i as int);
            }
            return Err(SchemaError::MalformedColumnToken(token.to_owned()));
        }
        let name = trim(parts[0]);
        let kind = trim(parts[1]);
        assert(views(parts@)[0] == parts@[0]@);
        assert(views(parts@)[1] == parts@[1]@);
        pairs.push((name, kind));
        i += 1;
    }
    proof {
        lemma_first_malformed(views(tokens@), i as int);
    }
    Ok(pairs)
}

/// Reads a column list: tokens of the form `name:type` between
/// commas, with white space allowed around each name and type.
pub fn parse(list: &str) -> (found: Result<Vec<ColumnSpec>, SchemaError>)
    ensures
        match found {
            Ok(columns) => parsed(list@) == Ok::<Seq<Column>, SchemaFault>(views(columns@)),
            Err(e) => parsed(list@) == Err::<Seq<Column>, SchemaFault>(e@),
        },
{
    let pairs = match column_pairs(list) {
        Ok(pairs) => pairs,
        Err(e) => {
            return Err(e);
        },
    };
    let ghost tokens = pieces(list@, ',');
    let mut columns: Vec<ColumnSpec> = Vec::new();
    let mut i: usize = 0;
    while i < pairs.len()
        invariant
            i <= pairs.len(),
            tokens == pieces(list@, ','),
            first_malformed(tokens) == tokens.len(),
            pairs@.len() == tokens.len(),
            forall|j: int|
                0 <= j < tokens.len() ==> (#[trigger] pairs@[j]).0@ == name_in(tokens[j])
                    && pairs@[j].1@ == type_in(tokens[j]),
            columns@.len() == i,
            forall|j: int| 0 <= j < i ==> kind_named(type_in(#[trigger] tokens[j])) is Some,
            forall|j: int| 0 <= j < i ==> (#[trigger] columns@[j])@ == column_in(tokens[j]),
        decreases pairs.len() - i,
    {
        let (name, kind_name) = pairs[i];
        match kind_of(kind_name) {
            Some(kind) => {
                columns.push(ColumnSpec { name: name.to_owned(), kind });
            },
            None => {
                proof {
                    lemma_first_unsupported(tokens, i as int);
                }
                return Err(SchemaError::UnsupportedGeneratorKind(kind_name.to_owned()));
            },
        }
        i += 1;
    }
    proof {
        lemma_first_unsupported(tokens, i as int);
        assert(views(columns@) =~= Seq::new(tokens.len(), |i: int| column_in(tokens[i])));
    }
    Ok(columns)
}

/// Where `first_malformed` points, and that every token before it is well
/// formed.
pub proof fn lemma_first_malformed_bounds(tokens: Seq<Seq<char>>)
    ensures
        0 <= first_malformed(tokens) <= tokens.len(),
        forall|i: int| 0 <= i < first_malformed(tokens) ==> well_formed(#[trigger] tokens[i]),
        first_malformed(tokens) < tokens.len() ==> !well_formed(tokens[first_malformed(tokens)]),
    decreases tokens.len(),
{
    if tokens.len() == 0 || !well_formed(tokens[0]) {
    } else {
        let rest = tokens.drop_first();
        lemma_first_malformed_bounds(rest);
        assert forall|i: int| 0 <= i < first_malformed(tokens) implies well_formed(
            #[trigger] tokens[i],
        ) by {
            if i > 0 {
                assert(tokens[i] == rest[i - 1]);
            }
        }
    }
}

/// Where `first_unsupported` points, and that every token before it names
/// a kind.
pub proof fn lemma_first_unsupported_bounds(tokens: Seq<Seq<char>>)
    ensures
        0 <= first_unsupported(tokens) <= tokens.len(),
        forall|i: int|
            0 <= i < first_unsupported(tokens) ==> kind_named(type_in(#[trigger] tokens[i]))
                is Some,
        first_unsupported(tokens) < tokens.len() ==> kind_named(
            type_in(tokens[first_unsupported(tokens)]),
        ) is None,
    decreases tokens.len(),
{
    if tokens.len() == 0 || kind_named(type_in(tokens[0])) is None {
    } else {
        let rest = tokens.drop_first();
        lemma_first_unsupported_bounds(rest);
        assert forall|i: int| 0 <= i < first_unsupported(tokens) implies kind_named(
            type_in(#[trigger] tokens[i]),
        ) is Some by {
            if i > 0 {
                assert(tokens[i] == rest[i - 1]);
            }
        }
    }
}

/// No two kinds share a name: the name of a kind refers to that kind.
pub proof fn lemma_kind_names_differ(kind: GeneratorKind)
    ensures
        kind_named(name_of(kind)) == Some(kind),
{
    reveal_strlit("FirstName");
    reveal_strlit("LastName");
    reveal_strlit("CityName");
    reveal_strlit("StreetName");
    reveal_strlit("ZipCode");
    reveal_strlit("Email");
    reveal_strlit("Username");
    reveal_strlit("Password");
    reveal_strlit("Color");
    reveal_strlit("Paragraph");
    reveal_strlit("Number");
    assert("FirstName"@.len() == 9 && "FirstName"@[0] == 'F');
    assert("LastName"@.len() == 8 && "LastName"@[0] == 'L');
    assert("CityName"@.len() == 8 && "CityName"@[0] == 'C');
    assert("StreetName"@.len() == 10);
    assert("ZipCode"@.len() == 7);
    assert("Email"@.len() == 5 && "Email"@[0] == 'E');
    assert("Username"@.len() == 8 && "Username"@[0] == 'U');
    assert("Password"@.len() == 8 && "Password"@[0] == 'P');
    assert("Color"@.len() == 5 && "Color"@[0] == 'C');
    assert("Paragraph"@.len() == 9 && "Paragraph"@[0] == 'P');
    assert("Number"@.len() == 6);
}

/// A column list all of whose tokens are well formed and name a kind is
/// read as one column for each token, in the order of the tokens.
pub proof fn lemma_valid_list_is_read_in_order(list: Seq<char>)
    requires
        forall|i: int|
            0 <= i < pieces(list, ',').len() ==> well_formed(#[trigger] pieces(list, ',')[i])
                && kind_named(type_in(pieces(list, ',')[i])) is Some,
    ensures
        parsed(list) matches Ok(columns) && columns.len() == pieces(list, ',').len() && forall|
            i: int,
        |
            0 <= i < columns.len() ==> #[trigger] columns[i] == column_in(pieces(list, ',')[i]),
{
    let tokens = pieces(list, ',');
    lemma_first_malformed(tokens, tokens.len() as int);
    lemma_first_unsupported(tokens, tokens.len() as int);
}

/// A column list with a token that is not well formed is turned down
/// for a malformed token: the first of them.
pub proof fn lemma_malformed_token_is_rejected(list: Seq<char>, i: int)
    requires
        0 <= i < pieces(list, ',').len(),
        !well_formed(pieces(list, ',')[i]),
    ensures
        parsed(list) matches Err(SchemaFault::MalformedColumnToken(token)) && !well_formed(token)
            && exists|j: int| 0 <= j <= i && pieces(list, ',')[j] == token,
{
    let tokens = pieces(list, ',');
    lemma_first_malformed_bounds(tokens);
    let bad = first_malformed(tokens);
    if bad > i {
        assert(well_formed(tokens[i]));
    }
    assert(0 <= bad <= i && tokens[bad] == tokens[bad]);
}

/// A column list of well-formed tokens, one of which gives a type that
/// names no kind, is turned down for an unsupported kind: the first such
/// type.
pub proof fn lemma_unsupported_type_is_rejected(list: Seq<char>, i: int)
    requires
        forall|j: int|
            0 <= j < pieces(list, ',').len() ==> well_formed(#[trigger] pieces(list, ',')[j]),
        0 <= i < pieces(list, ',').len(),
        kind_named(type_in(pieces(list, ',')[i])) is None,
    ensures
        parsed(list) matches Err(SchemaFault::UnsupportedGeneratorKind(name)) && kind_named(name)
            is None && exists|j: int| 0 <= j <= i && type_in(pieces(list, ',')[j]) == name,
{
    let tokens = pieces(list, ',');
    lemma_first_malformed(tokens, tokens.len() as int);
    lemma_first_unsupported_bounds(tokens);
    let odd = first_unsupported(tokens);
    if odd > i {
        assert(kind_named(type_in(tokens[i])) is Some);
    }
    assert(0 <= odd <= i && type_in(tokens[odd]) == type_in(tokens[odd]));
}

} // verus!
