//! The commands that are sent to a device, and what it answers.

use crate::error::{Error, ErrorView};
use crate::row::{get_or_empty, value_or_empty, Row, RowView};
use crate::text::{has_char, owned};
use vstd::prelude::*;
use vstd::string::*;

verus! {

/// An attribute of a command: its name, and its value if it has one.
pub type Attribute = (Seq<char>, Option<Seq<char>>);

/// A command: its word, and its attributes in the order in which they are sent.
#[derive(Debug, PartialEq, Eq)]
pub struct Request {
    pub word: String,
    pub attributes: Vec<(String, Option<String>)>,
}

/// What a [`Request`] is.
#[verifier::ext_equal]
pub struct RequestView {
    pub word: Seq<char>,
    pub attributes: Seq<Attribute>,
}

impl DeepView for Request {
    type V = RequestView;

    open spec fn deep_view(&self) -> RequestView {
        RequestView { word: self.word@, attributes: self.attributes.deep_view() }
    }
}

/// The command that lists a table.
pub open spec fn print_request(path: Seq<char>) -> RequestView {
    RequestView { word: path + "/print"@, attributes: seq![] }
}

/// The command that adds a row to a table.
pub open spec fn add_request(path: Seq<char>, attributes: Seq<Attribute>) -> RequestView {
    RequestView { word: path + "/add"@, attributes }
}

/// The command that sets fields of the row `id` of a table.
pub open spec fn set_request(
    path: Seq<char>,
    id: Seq<char>,
    attributes: Seq<Attribute>,
) -> RequestView {
    RequestView { word: path + "/set"@, attributes: seq![(".id"@, Some(id))] + attributes }
}

/// The command that removes the row `id` of a table.
pub open spec fn remove_request(path: Seq<char>, id: Seq<char>) -> RequestView {
    RequestView { word: path + "/remove"@, attributes: seq![(".id"@, Some(id))] }
}

/// Adds an attribute with a value.
pub fn put(attributes: &mut Vec<(String, Option<String>)>, key: &str, value: &str)
    ensures
        final(attributes).deep_view() == old(attributes).deep_view().push((key@, Some(value@))),
{
    let ghost before = attributes.deep_view();
    attributes.push((owned(key), Some(owned(value))));
    assert(attributes.deep_view() =~= before.push((key@, Some(value@))));
}

/// Adds an attribute with or without a value.
pub fn put_option(
    attributes: &mut Vec<(String, Option<String>)>,
    key: &str,
    value: Option<String>,
)
    ensures
        final(attributes).deep_view() == old(attributes).deep_view().push(
            (key@, value.deep_view()),
        ),
{
    let ghost before = attributes.deep_view();
    let ghost entry = (key@, value.deep_view());
    attributes.push((owned(key), value));
    assert(attributes.deep_view() =~= before.push(entry));
}

/// No attributes.
pub fn no_attributes() -> (r: Vec<(String, Option<String>)>)
    ensures
        r.deep_view() == Seq::<Attribute>::empty(),
{
    let r: Vec<(String, Option<String>)> = Vec::new();
    assert(r.deep_view() =~= Seq::<Attribute>::empty());
    r
}

fn word(path: &str, action: &str) -> (r: String)
    ensures
        r@ == path@ + action@,
{
    let mut out = owned(path);
    out.append(action);
    out
}

impl Request {
    /// Lists a table.
    pub fn print(path: &str) -> (r: Request)
        ensures
            r.deep_view() == print_request(path@),
    {
        Request { word: word(path, "/print"), attributes: no_attributes() }
    }

    /// Adds a row to a table.
    pub fn add(path: &str, attributes: Vec<(String, Option<String>)>) -> (r: Request)
        ensures
            r.deep_view() == add_request(path@, attributes.deep_view()),
    {
        Request { word: word(path, "/add"), attributes }
    }

    /// Sets fields of the row `id` of a table.
    pub fn set(path: &str, id: &str, attributes: Vec<(String, Option<String>)>) -> (r: Request)
        ensures
            r.deep_view() == set_request(path@, id@, attributes.deep_view()),
    {
        let ghost given = attributes.deep_view();
        let mut all = no_attributes();
        put(&mut all, ".id", id);
        let ghost first = all.deep_view();
        let mut rest = attributes;
        all.append(&mut rest);
        assert(all.deep_view() =~= first + given);
        Request { word: word(path, "/set"), attributes: all }
    }

    /// Removes the row `id` of a table.
    pub fn remove(path: &str, id: &str) -> (r: Request)
        ensures
            r.deep_view() == remove_request(path@, id@),
    {
        let mut attributes = no_attributes();
        put(&mut attributes, ".id", id);
        Request { word: word(path, "/remove"), attributes }
    }
}

/// The builder of a command for the wire.
#[verifier::external_type_specification]
#[verifier::external_body]
#[verifier::reject_recursive_types(State)]
pub struct ExCommandBuilder<State>(mikrotik_rs::CommandBuilder<State>);

/// The state of a builder that has no command word yet.
#[verifier::external_type_specification]
#[verifier::external_body]
pub struct ExNoCmd(mikrotik_rs::command::NoCmd);

/// The state of a builder that has a command word.
#[verifier::external_type_specification]
#[verifier::external_body]
pub struct ExCmd(mikrotik_rs::command::Cmd);

/// A command for the wire.
#[verifier::external_type_specification]
#[verifier::external_body]
pub struct ExCommand(mikrotik_rs::Command);

/// The command word that a builder was given.
pub uninterp spec fn builder_word(
    b: mikrotik_rs::CommandBuilder<mikrotik_rs::command::Cmd>,
) -> Seq<char>;

/// The attributes that a builder was given, in order. One without a value is the same as one with
/// an empty value.
pub uninterp spec fn builder_attributes(
    b: mikrotik_rs::CommandBuilder<mikrotik_rs::command::Cmd>,
) -> Seq<(Seq<char>, Seq<char>)>;

/// The command word that a command for the wire carries.
pub uninterp spec fn wire_word(c: mikrotik_rs::Command) -> Seq<char>;

/// The attributes that a command for the wire carries, in order.
pub uninterp spec fn wire_attributes(c: mikrotik_rs::Command) -> Seq<(Seq<char>, Seq<char>)>;

/// The longest text whose encoded word surely fits the wire format: four bytes to a character, and
/// two for the signs around an attribute's name.
pub open spec fn fits_wire(chars: nat) -> bool {
    4 * chars + 2 <= u32::MAX
}

/// Begins a command by `CommandBuilder::new`.
///
/// Trusted: nothing is claimed of the builder. The tag that it draws at random is not spoken of.
#[verifier::external_body]
fn begin() -> (r: mikrotik_rs::CommandBuilder<mikrotik_rs::command::NoCmd>) {
    mikrotik_rs::CommandBuilder::new()
}

/// Gives a command its word by `CommandBuilder::command`.
///
/// Trusted: the builder then has this command word and no attributes. An empty word would end the
/// sentence on the wire, and is left out. A word of more than `u32::MAX` bytes makes the outside
/// function panic.
#[verifier::external_body]
fn command(b: mikrotik_rs::CommandBuilder<mikrotik_rs::command::NoCmd>, word: &str) -> (r:
    mikrotik_rs::CommandBuilder<mikrotik_rs::command::Cmd>)
    requires
        word@.len() > 0,
        fits_wire(word@.len()),
    ensures
        builder_word(r) == word@,
        builder_attributes(r) == Seq::<(Seq<char>, Seq<char>)>::empty(),
{
    b.command(word)
}

/// Adds an attribute by `CommandBuilder::attribute`.
///
/// Trusted: the attribute comes last, with an empty value where it has none, and the rest stays.
/// The word on the wire is `=`, the name, `=` and the value, so a name that holds a `=` itself
/// would be told as a shorter one, and is left out. A word of more than `u32::MAX` bytes makes the
/// outside function panic.
#[verifier::external_body]
fn attribute(
    b: mikrotik_rs::CommandBuilder<mikrotik_rs::command::Cmd>,
    key: &str,
    value: Option<&str>,
) -> (r: mikrotik_rs::CommandBuilder<mikrotik_rs::command::Cmd>)
    requires
        fits_wire(key@.len() + wire_value(value.deep_view()).len()),
        !key@.contains('='),
    ensures
        builder_word(r) == builder_word(b),
        builder_attributes(r) == builder_attributes(b).push(
            (key@, wire_value(value.deep_view())),
        ),
{
    b.attribute(key, value)
}

/// Ends a command by `CommandBuilder::build`.
///
/// Trusted: the command carries what the builder was given.
#[verifier::external_body]
fn build(b: mikrotik_rs::CommandBuilder<mikrotik_rs::command::Cmd>) -> (r: mikrotik_rs::Command)
    ensures
        wire_word(r) == builder_word(b),
        wire_attributes(r) == builder_attributes(b),
{
    b.build()
}

/// The value that an attribute has on the wire.
pub open spec fn wire_value(value: Option<Seq<char>>) -> Seq<char> {
    match value {
        Some(v) => v,
        None => Seq::empty(),
    }
}

/// What the first `n` attributes are on the wire.
pub open spec fn on_wire(attributes: Seq<Attribute>, n: int) -> Seq<(Seq<char>, Seq<char>)>
    decreases n,
{
    if n <= 0 {
        Seq::empty()
    } else {
        on_wire(attributes, n - 1).push((attributes[n - 1].0, wire_value(attributes[n - 1].1)))
    }
}

/// Whether an attribute fits the wire format, with a name that is told from its value.
pub open spec fn encodable_attribute(a: Attribute) -> bool {
    fits_wire(a.0.len() + wire_value(a.1).len()) && !a.0.contains('=')
}

/// Whether the names of these attributes are told from their values.
pub open spec fn plainly_named(attributes: Seq<Attribute>) -> bool {
    forall|i: int| 0 <= i < attributes.len() ==> !(#[trigger] attributes[i]).0.contains('=')
}

/// Whether every word of a command fits the wire format, and every attribute's name is told from
/// its value. On the wire an empty word ends a sentence, so the command has a word that is not.
pub open spec fn encodable(c: RequestView) -> bool {
    &&& c.word.len() > 0
    &&& fits_wire(c.word.len())
    &&& forall|i: int|
        0 <= i < c.attributes.len() ==> encodable_attribute(#[trigger] c.attributes[i])
}

/// Whether every word of a command fits the wire format, and every attribute's name is told from
/// its value. On the wire an empty word ends a sentence, so the command has a word that is not.
pub fn is_encodable(c: &Request) -> (r: bool)
    ensures
        r == encodable(c.deep_view()),
{
    let length: usize = c.word.as_str().unicode_len();
    if length == 0 || length > 1073741823 {
        return false;
    }
    let ghost d = c.attributes.deep_view();
    let mut i: usize = 0;
    while i < c.attributes.len()
        invariant
            i <= c.attributes@.len(),
            d == c.attributes.deep_view(),
            c.word@.len() > 0,
            fits_wire(c.word@.len()),
            forall|k: int| 0 <= k < i ==> encodable_attribute(#[trigger] d[k]),
        decreases c.attributes@.len() - i,
    {
        assert(d[i as int] == c.attributes[i as int].deep_view());
        let key: usize = c.attributes[i].0.as_str().unicode_len();
        let value: usize = match &c.attributes[i].1 {
            Some(v) => v.as_str().unicode_len(),
            None => 0,
        };
        if key > 1073741823 || value > 1073741823 - key || has_char(
            c.attributes[i].0.as_str(),
            '=',
        ) {
            assert(c.deep_view().attributes[i as int] == d[i as int]);
            assert(!encodable_attribute(d[i as int]));
            return false;
        }
        i = i + 1;
    }
    true
}

/// Puts a command into the wire format. An attribute without a value goes as one with an empty
/// value, `=name=`, which is how RouterOS takes a flag.
pub fn encode(c: &Request) -> (r: mikrotik_rs::Command)
    requires
        encodable(c.deep_view()),
    ensures
        wire_word(r) == c.word@,
        wire_attributes(r) == on_wire(c.attributes.deep_view(), c.attributes@.len() as int),
{
    let ghost d = c.attributes.deep_view();
    let mut b = command(begin(), c.word.as_str());
    let mut i: usize = 0;
    while i < c.attributes.len()
        invariant
            i <= c.attributes@.len(),
            d == c.attributes.deep_view(),
            encodable(c.deep_view()),
            builder_word(b) == c.word@,
            builder_attributes(b) == on_wire(d, i as int),
        decreases c.attributes@.len() - i,
    {
        assert(d[i as int] == c.attributes[i as int].deep_view());
        assert(encodable_attribute(c.deep_view().attributes[i as int]));
        let value = match &c.attributes[i].1 {
            Some(v) => Some(v.as_str()),
            None => None,
        };
        b = attribute(b, c.attributes[i].0.as_str(), value);
        i = i + 1;
    }
    build(b)
}

/// What a device says to a command.
#[derive(Debug)]
pub enum Reply {
    /// A row; more can follow.
    Row(Row),
    /// The command is done, with or without rows.
    Done,
    /// The command was refused.
    Trap { message: String, category: String },
    /// The connection is gone for a reason that the device gave.
    Fatal { reason: String },
    /// The connection gave no more.
    Closed,
}

/// What a [`Reply`] is.
pub enum ReplyView {
    Row(RowView),
    Done,
    Trap { message: Seq<char>, category: Seq<char> },
    Fatal { reason: Seq<char> },
    Closed,
}

impl DeepView for Reply {
    type V = ReplyView;

    open spec fn deep_view(&self) -> ReplyView {
        match self {
            Reply::Row(row) => ReplyView::Row(row@),
            Reply::Done => ReplyView::Done,
            Reply::Trap { message, category } => ReplyView::Trap {
                message: message@,
                category: category@,
            },
            Reply::Fatal { reason } => ReplyView::Fatal { reason: reason@ },
            Reply::Closed => ReplyView::Closed,
        }
    }
}

/// What comes of waiting for a command to end.
pub enum Progress {
    /// The next reply is to be waited for.
    Pending,
    /// The command has ended.
    Complete,
    /// The command has failed.
    Failed(Error),
}

/// What a reply does to the rows that came before it, and what comes of it: a row is kept, a
/// refusal and a lost connection are failures, anything else ends the command.
pub open spec fn absorbed(rows: Seq<RowView>, reply: ReplyView) -> (Seq<RowView>, Option<
    Result<(), ErrorView>,
>) {
    match reply {
        ReplyView::Row(row) => (rows.push(row), None),
        ReplyView::Done => (rows, Some(Ok(()))),
        ReplyView::Closed => (rows, Some(Ok(()))),
        ReplyView::Trap { message, category } => (
            rows,
            Some(Err(ErrorView::Trap { message, category })),
        ),
        ReplyView::Fatal { reason } => (rows, Some(Err(ErrorView::Fatal { reason }))),
    }
}

/// What a [`Progress`] is: how the command has ended, if it has.
pub open spec fn progress(p: Progress) -> Option<Result<(), ErrorView>> {
    match p {
        Progress::Pending => None,
        Progress::Complete => Some(Ok(())),
        Progress::Failed(e) => Some(Err(e.deep_view())),
    }
}

/// Takes one reply to a command.
pub fn absorb(rows: &mut Vec<Row>, reply: Reply) -> (r: Progress)
    ensures
        (final(rows).deep_view(), progress(r)) == absorbed(
            old(rows).deep_view(),
            reply.deep_view(),
        ),
{
    match reply {
        Reply::Row(row) => {
            let ghost before = rows.deep_view();
            let ghost seen = row@;
            rows.push(row);
            assert(rows.deep_view() =~= before.push(seen));
            Progress::Pending
        },
        Reply::Done => Progress::Complete,
        Reply::Closed => Progress::Complete,
        Reply::Trap { message, category } => Progress::Failed(Error::Trap { message, category }),
        Reply::Fatal { reason } => Progress::Failed(Error::Fatal { reason }),
    }
}

/// The `.id` that the device gave the row that was added, empty if it did not say.
pub open spec fn new_id(rows: Seq<RowView>) -> Seq<char> {
    if rows.len() > 0 {
        value_or_empty(rows[0], "ret"@)
    } else {
        ""@
    }
}

/// The `.id` that the device gave the row that was added, empty if it did not say.
pub fn added_id(rows: &[Row]) -> (r: String)
    ensures
        r@ == new_id(rows.deep_view()),
{
    if rows.len() > 0 {
        assert(rows.deep_view()[0] == rows[0]@);
        get_or_empty(&rows[0], "ret")
    } else {
        owned("")
    }
}

/// A row among the replies is kept, behind those before it, and the next reply is waited for. No
/// other reply changes the rows: a refusal and a lost connection are failures with what they said,
/// and anything else ends the command well.
pub proof fn law_replies(rows: Seq<RowView>, reply: ReplyView)
    ensures
        reply matches ReplyView::Row(row) ==> absorbed(rows, reply).0 == rows.push(row) && absorbed(
            rows,
            reply,
        ).1 is None,
        !(reply is Row) ==> absorbed(rows, reply).0 == rows && absorbed(rows, reply).1 is Some,
        reply is Done || reply is Closed <==> absorbed(rows, reply).1 == Some(
            Ok::<(), ErrorView>(()),
        ),
        reply matches ReplyView::Trap { message, category } ==> absorbed(rows, reply).1 == Some(
            Err::<(), ErrorView>(ErrorView::Trap { message, category }),
        ),
        reply matches ReplyView::Fatal { reason } ==> absorbed(rows, reply).1 == Some(
            Err::<(), ErrorView>(ErrorView::Fatal { reason }),
        ),
{
}

/// Every attribute goes on the wire in its place under its own name, with its value or an empty
/// one.
pub proof fn law_on_wire(attributes: Seq<Attribute>, n: int)
    requires
        0 <= n <= attributes.len(),
    ensures
        on_wire(attributes, n).len() == n,
        forall|k: int|
            0 <= k < n ==> (#[trigger] on_wire(attributes, n)[k]).0 == attributes[k].0 && on_wire(
                attributes,
                n,
            )[k].1 == (if attributes[k].1 is Some {
                attributes[k].1->Some_0
            } else {
                Seq::empty()
            }),
    decreases n,
{
    if n > 0 {
        law_on_wire(attributes, n - 1);
        let before = on_wire(attributes, n - 1);
        assert forall|k: int| 0 <= k < n - 1 implies on_wire(attributes, n)[k] == before[k] by {}
    }
}

} // verus!
