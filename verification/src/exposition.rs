//! What the endpoints of the dashboard answer: the scrape with the header that
//! names the units of the metrics, and the files of the dashboard.

use vstd::prelude::*;
use vstd::string::StringExecFns;

verus! {

/// The JSON string literal for a text: the text between double quotes, with
/// the characters escaped that JSON does not take as they are.
pub uninterp spec fn json_string(text: Seq<char>) -> Seq<char>;

/// The JSON string literal for `text`, as `serde_json::to_string` writes it for
/// a `str`. The contract claims that the result depends on the text alone and
/// calls it `json_string`; it claims nothing of what the literal looks like.
/// For a `str` the call does not fail.
#[verifier::external_body]
fn to_json_string(text: &str) -> (json: String)
    ensures
        json@ == json_string(text@),
{
    serde_json::to_string(text).unwrap_or_default()
}

/// The media type that `mime_guess::from_path` guesses from the extension of
/// `path`, or `application/octet-stream` where it has no guess, as
/// `first_or_octet_stream` returns it. The path is read as the platform reads
/// paths, so the contract claims nothing of the result.
#[verifier::external_body]
fn guess_media_type(path: &str) -> (media_type: String) {
    mime_guess::from_path(path).first_or_octet_stream().as_ref().to_owned()
}

/// The name of the header that carries the units with a scrape.
pub const UNIT_HEADER: &'static str = "x-dashboard-metrics-unit";

/// One member of a JSON object: the key and the value, each a JSON literal
/// already, with a colon between them.
pub open spec fn member_text(member: (Seq<char>, Seq<char>)) -> Seq<char> {
    member.0 + ":"@ + member.1
}

/// The members of a JSON object, with a comma between each two.
pub open spec fn members_text(members: Seq<(Seq<char>, Seq<char>)>) -> Seq<char>
    decreases members.len(),
{
    if members.len() == 0 {
        Seq::empty()
    } else if members.len() == 1 {
        member_text(members[0])
    } else {
        members_text(members.drop_last()) + ","@ + member_text(members.last())
    }
}

/// The JSON object with the members `members`: the members between braces.
pub open spec fn object_text(members: Seq<(Seq<char>, Seq<char>)>) -> Seq<char> {
    "{"@ + members_text(members) + "}"@
}

/// The entries of a table as members of a JSON object: each name and each
/// unit as its JSON string literal.
pub open spec fn literals_of(entries: Seq<(Seq<char>, Seq<char>)>) -> Seq<(Seq<char>, Seq<char>)> {
    Seq::new(entries.len(), |i: int| (json_string(entries[i].0), json_string(entries[i].1)))
}

/// The unit header: a JSON object with one member for each metric, the
/// metric's name as the key and its unit as the value.
pub open spec fn header_json(entries: Seq<(Seq<char>, Seq<char>)>) -> Seq<char> {
    object_text(literals_of(entries))
}

/// The members as the specifications see them.
pub open spec fn members_view(members: Seq<(String, String)>) -> Seq<(Seq<char>, Seq<char>)> {
    Seq::new(members.len(), |i: int| (members[i].0@, members[i].1@))
}

/// The JSON object with the members `members`, of which each key and each
/// value is a JSON literal already: the members in their order, a colon
/// between key and value, a comma between two members, all between braces.
pub fn join_members(members: &Vec<(String, String)>) -> (object: String)
    ensures
        object@ == object_text(members_view(members@)),
{
    let ghost all = members_view(members@);
    let mut object = String::from_str("{");
    let n: usize = members.len();
    let mut i: usize = 0;
    assert(all.take(0) =~= Seq::<(Seq<char>, Seq<char>)>::empty());
    while i < n
        invariant
            i <= n,
            n == members@.len(),
            all == members_view(members@),
            object@ == "{"@ + members_text(all.take(i as int)),
        decreases n - i,
    {
        if i > 0 {
            object.append(",");
        }
        object.append(members[i].0.as_str());
        object.append(":");
        object.append(members[i].1.as_str());
        proof {
            let upto = all.take(i as int + 1);
            assert(upto.drop_last() == all.take(i as int));
            assert(upto.last() == all[i as int]);
            assert(object@ =~= "{"@ + members_text(upto));
        }
        i += 1;
    }
    assert(all.take(n as int) == all);
    object.append("}");
    object
}

/// The index of the entry for `name`, or the number of entries where there is
/// none.
pub open spec fn position(entries: Seq<(Seq<char>, Seq<char>)>, name: Seq<char>) -> int
    decreases entries.len(),
{
    if entries.len() == 0 {
        0
    } else if entries[0].0 == name {
        0
    } else {
        1 + position(entries.drop_first(), name)
    }
}

/// The entries after the unit of `name` has been registered: the unit takes
/// the place of the one that the name had, or the entry is new and comes last.
pub open spec fn register(
    entries: Seq<(Seq<char>, Seq<char>)>,
    name: Seq<char>,
    unit: Seq<char>,
) -> Seq<(Seq<char>, Seq<char>)> {
    let at = position(entries, name);
    if at < entries.len() {
        entries.update(at, (name, unit))
    } else {
        entries.push((name, unit))
    }
}

/// Whether no name has two entries.
pub open spec fn distinct_names(entries: Seq<(Seq<char>, Seq<char>)>) -> bool {
    forall|i: int, j: int|
        0 <= i < j < entries.len() ==> (#[trigger] entries[i]).0 != (#[trigger] entries[j]).0
}

/// `position` finds the first entry with the name, and only where there is
/// one.
pub proof fn lemma_position(entries: Seq<(Seq<char>, Seq<char>)>, name: Seq<char>)
    ensures
        0 <= position(entries, name) <= entries.len(),
        position(entries, name) < entries.len() ==> entries[position(entries, name)].0 == name,
        forall|i: int| 0 <= i < position(entries, name) ==> (#[trigger] entries[i]).0 != name,
    decreases entries.len(),
{
    if entries.len() > 0 && entries[0].0 != name {
        let rest = entries.drop_first();
        lemma_position(rest, name);
        assert forall|i: int| 0 <= i < position(entries, name) implies (#[trigger] entries[i]).0
            != name by {
            if i > 0 {
                assert(entries[i] == rest[i - 1]);
            }
        }
    }
}

/// Registering a unit keeps the names distinct.
pub proof fn lemma_register_keeps_distinct(
    entries: Seq<(Seq<char>, Seq<char>)>,
    name: Seq<char>,
    unit: Seq<char>,
)
    requires
        distinct_names(entries),
    ensures
        distinct_names(register(entries, name, unit)),
{
    lemma_position(entries, name);
    let at = position(entries, name);
    let after = register(entries, name, unit);
    assert forall|i: int, j: int| 0 <= i < j < after.len() implies (#[trigger] after[i]).0 != (
    #[trigger] after[j]).0 by {
        if at < entries.len() {
            assert(after[i].0 == entries[i].0);
            assert(after[j].0 == entries[j].0);
        } else {
            if j < entries.len() {
                assert(after[i] == entries[i]);
                assert(after[j] == entries[j]);
            } else {
                assert(after[i] == entries[i]);
            }
        }
    }
}

/// The units of the metrics that have been described, by the metric's name, in
/// the order in which the names were first seen.
pub struct UnitTable {
    entries: Vec<(String, String)>,
}

impl View for UnitTable {
    type V = Seq<(Seq<char>, Seq<char>)>;

    /// The names with their units.
    closed spec fn view(&self) -> Seq<(Seq<char>, Seq<char>)> {
        Seq::new(self.entries@.len(), |i: int| (self.entries@[i].0@, self.entries@[i].1@))
    }
}

impl UnitTable {
    /// A table without entries.
    pub fn new() -> (table: Self)
        ensures
            table@ == Seq::<(Seq<char>, Seq<char>)>::empty(),
            distinct_names(table@),
    {
        let table = UnitTable { entries: Vec::new() };
        assert(table@ =~= Seq::<(Seq<char>, Seq<char>)>::empty());
        table
    }

    /// The number of metrics with a unit.
    pub fn len(&self) -> (n: usize)
        ensures
            n == self@.len(),
    {
        self.entries.len()
    }

    /// The unit of the metric `name`, if it has one.
    pub fn unit(&self, name: &str) -> (unit: Option<String>)
        ensures
            match unit {
                Some(found) => position(self@, name@) < self@.len() && found@ == self@[position(
                    self@,
                    name@,
                )].1,
                None => position(self@, name@) == self@.len(),
            },
    {
        let at = self.find(name);
        if at < self.entries.len() {
            Some(self.entries[at].1.clone())
        } else {
            None
        }
    }

    fn find(&self, name: &str) -> (at: usize)
        ensures
            at == position(self@, name@),
            at <= self@.len(),
    {
        let wanted = String::from_str(name);
        let n: usize = self.entries.len();
        let mut at: usize = 0;
        while at < n && !(self.entries[at].0 == wanted)
            invariant
                at <= n,
                n == self.entries@.len(),
                n == self@.len(),
                wanted@ == name@,
                forall|i: int| 0 <= i < at ==> (#[trigger] self@[i]).0 != name@,
            decreases n - at,
        {
            at += 1;
        }
        proof {
            lemma_position(self@, name@);
            let found = position(self@, name@);
            if at < n {
                assert(self@[at as int].0 == name@);
            }
            if found < at {
                assert(self@[found].0 == name@);
            }
        }
        at
    }

    /// Registers `unit` as the unit of the metric `name`. A metric that had a
    /// unit has the new one from now on, so no name comes to have two entries.
    pub fn register_unit(&mut self, name: String, unit: String)
        ensures
            final(self)@ == register(old(self)@, name@, unit@),
            distinct_names(old(self)@) ==> distinct_names(final(self)@),
    {
        let at = self.find(name.as_str());
        let ghost before = self@;
        proof {
            if distinct_names(before) {
                lemma_register_keeps_distinct(before, name@, unit@);
            }
        }
        if at < self.entries.len() {
            self.entries[at] = (name, unit);
            assert(self@ =~= register(before, name@, unit@));
        } else {
            self.entries.push((name, unit));
            assert(self@ =~= register(before, name@, unit@));
        }
    }

    /// The unit header for the table.
    pub fn header(&self) -> (header: String)
        ensures
            header@ == header_json(self@),
    {
        let mut literals: Vec<(String, String)> = Vec::new();
        let n: usize = self.entries.len();
        let mut i: usize = 0;
        while i < n
            invariant
                i <= n,
                n == self.entries@.len(),
                n == self@.len(),
                literals@.len() == i,
                members_view(literals@) == literals_of(self@.take(i as int)),
            decreases n - i,
        {
            let key = to_json_string(self.entries[i].0.as_str());
            let value = to_json_string(self.entries[i].1.as_str());
            let ghost earlier = literals@;
            literals.push((key, value));
            proof {
                let after = members_view(literals@);
                let wanted = literals_of(self@.take(i as int + 1));
                assert forall|k: int| 0 <= k < after.len() implies after[k] == wanted[k] by {
                    if k < i {
                        assert(literals@[k] == earlier[k]);
                        assert(members_view(earlier)[k] == literals_of(self@.take(i as int))[k]);
                    }
                }
                assert(after =~= wanted);
            }
            i += 1;
        }
        assert(self@.take(n as int) == self@);
        join_members(&literals)
    }
}

/// The answer to a scrape.
#[derive(Debug)]
pub struct ScrapeReply {
    /// The value of the unit header, where the answer has one.
    pub unit_header: Option<String>,
    /// The metrics, as the recorder rendered them.
    pub body: String,
}

/// The answer to a scrape. `rendered` is what the recorder rendered, or `None`
/// while there is no recorder; `units` is the table of units, or `None` while
/// no metric has been described. Without a recorder the answer is empty and has
/// no header.
pub fn scrape_reply(units: Option<&UnitTable>, rendered: Option<String>) -> (reply: ScrapeReply)
    ensures
        rendered is None ==> reply.unit_header is None && reply.body@ == Seq::<char>::empty(),
        rendered is Some ==> reply.body == rendered->0,
        rendered is Some && units is None ==> reply.unit_header is None,
        rendered is Some && units is Some ==> reply.unit_header is Some
            && reply.unit_header->0@ == header_json(units->0@),
{
    match rendered {
        None => ScrapeReply { unit_header: None, body: String::new() },
        Some(body) => {
            let unit_header = match units {
                None => None,
                Some(table) => Some(table.header()),
            };
            ScrapeReply { unit_header, body }
        },
    }
}

/// The answer to a request for a file of the dashboard.
#[derive(Debug)]
pub enum AssetReply {
    /// The file, with the media type to send it under.
    Found { content_type: String, data: Vec<u8> },
    /// There is no such file.
    NotFound,
}

/// The body of the answer where there is no such file.
pub const NOT_FOUND_BODY: &'static str = "404 Not Found";

/// The answer for a file whose media type is known.
pub fn asset_reply(content_type: String, asset: Option<Vec<u8>>) -> (reply: AssetReply)
    ensures
        match asset {
            None => reply is NotFound,
            Some(data) => reply == (AssetReply::Found { content_type, data }),
        },
{
    match asset {
        None => AssetReply::NotFound,
        Some(data) => AssetReply::Found { content_type, data },
    }
}

/// The answer to a request for the file at `path`, where `asset` is what the
/// dashboard holds under that path. A file is sent as it is, under the media
/// type that its path suggests.
pub fn handle_embedded_file(path: &str, asset: Option<Vec<u8>>) -> (reply: AssetReply)
    ensures
        match asset {
            None => reply is NotFound,
            Some(data) => reply is Found && reply->data == data,
        },
{
    match asset {
        None => AssetReply::NotFound,
        Some(data) => asset_reply(guess_media_type(path), Some(data)),
    }
}

} // verus!
