//! Agent roster: the hub's `name -> token` authentication map.
//!
//! The file is an `[agents]` table of tokens and nothing else. A hub that can
//! authenticate nobody must not start, so an empty roster and an entry with an empty
//! name or token are fatal. Token values never enter an error: of a file that is no
//! roster only the place of the fault is kept, since a parser quotes what it read.

use std::collections::BTreeMap;
use vstd::prelude::*;
use vstd::string::*;
use vstd::utf8::*;

use crate::audit::AuthFailureReason;
use crate::table::NameTable;
use crate::text::{debug_text, decimal, decimal_text, position, position_in, quoted};

verus! {

/// Who may authenticate, and with which token.
pub struct Roster {
    /// Agent name -> token.
    pub agents: NameTable<String>,
}

impl View for Roster {
    type V = Map<Seq<char>, Seq<char>>;

    open spec fn view(&self) -> Map<Seq<char>, Seq<char>> {
        self.agents@.map_values(|token: String| token@)
    }
}

/// A place in a text, counted from one, the column in bytes.
#[derive(Debug, Clone, Copy, PartialEq, Eq, Structural)]
pub struct Place {
    pub line: usize,
    pub column: usize,
}

/// What an error says of a place; nothing where none is known.
pub open spec fn place_text(place: Option<Place>) -> Seq<char> {
    match place {
        Some(at) => " (line "@ + decimal_text(at.line as nat) + ", column "@ + decimal_text(
            at.column as nat,
        ) + ")"@,
        None => ""@,
    }
}

fn describe_place(place: Option<Place>) -> (text: String)
    ensures
        text@ == place_text(place),
{
    match place {
        Some(at) => {
            let mut text = " (line ".to_string();
            text.append(decimal(at.line).as_str());
            text.append(", column ");
            text.append(decimal(at.column).as_str());
            text.append(")");
            text
        },
        None => "".to_string(),
    }
}

/// Why roster loading failed.
#[derive(Debug)]
pub enum RosterError {
    /// The roster file could not be read.
    Read { path: String, source: String },
    /// The roster file is not a valid strict roster: a syntax error, a wrong type,
    /// or keys outside the `[agents]` table.
    Parse { path: String, place: Option<Place> },
    /// The `[agents]` table has no entries.
    Empty { path: String },
    /// An entry has an empty name or an empty token.
    BlankEntry { path: String, name: String },
}

/// The contents of a [`RosterError`].
pub enum RosterErrorView {
    Read { path: Seq<char>, source: Seq<char> },
    Parse { path: Seq<char>, place: Option<Place> },
    Empty { path: Seq<char> },
    BlankEntry { path: Seq<char>, name: Seq<char> },
}

impl View for RosterError {
    type V = RosterErrorView;

    open spec fn view(&self) -> RosterErrorView {
        match *self {
            RosterError::Read { path, source } => RosterErrorView::Read {
                path: path@,
                source: source@,
            },
            RosterError::Parse { path, place } => RosterErrorView::Parse { path: path@, place },
            RosterError::Empty { path } => RosterErrorView::Empty { path: path@ },
            RosterError::BlankEntry { path, name } => RosterErrorView::BlankEntry {
                path: path@,
                name: name@,
            },
        }
    }
}

/// The line for a blank entry, with the entry's name quoted.
pub open spec fn blank_entry_text(path: Seq<char>, quotation: Seq<char>) -> Seq<char> {
    "roster file "@ + path + " has an entry with an empty name or empty token (name: "@ + quotation
        + ")"@
}

/// Writes the line for a blank entry whose name is already quoted.
pub fn describe_blank_entry(path: &str, quotation: &str) -> (text: String)
    ensures
        text@ == blank_entry_text(path@, quotation@),
        text@ == "roster file "@ + path@ + " has an entry with an empty name or empty token (name: "@
            + quotation@ + ")"@,
{
    let mut text = "roster file ".to_string();
    text.append(path);
    text.append(" has an entry with an empty name or empty token (name: ");
    text.append(quotation);
    text.append(")");
    text
}

impl RosterErrorView {
    /// The operator's startup evidence: the file and the exact defect.
    pub open spec fn text(self) -> Seq<char> {
        match self {
            RosterErrorView::Read { path, source } => "cannot read roster file "@ + path + ": "@
                + source,
            RosterErrorView::Parse { path, place } => "invalid roster file "@ + path
                + ": expected an [agents] table of tokens and nothing else"@ + place_text(place),
            RosterErrorView::Empty { path } => "roster file "@ + path
                + " has an empty [agents] table; at least one agent is required"@,
            RosterErrorView::BlankEntry { path, name } => blank_entry_text(path, debug_text(name)),
        }
    }
}

impl RosterError {
    /// Renders the operator's startup evidence.
    pub fn to_string(&self) -> (text: String)
        ensures
            text@ == self@.text(),
            match self {
                RosterError::Read { path, source } => text@ == "cannot read roster file "@ + path@
                    + ": "@ + source@,
                RosterError::Parse { path, place } => match place {
                    Some(at) => text@ == "invalid roster file "@ + path@
                        + ": expected an [agents] table of tokens and nothing else"@ + (
                    " (line "@ + decimal_text(at.line as nat) + ", column "@ + decimal_text(
                        at.column as nat,
                    ) + ")"@),
                    None => text@ == "invalid roster file "@ + path@
                        + ": expected an [agents] table of tokens and nothing else"@ + ""@,
                },
                RosterError::Empty { path } => text@ == "roster file "@ + path@
                    + " has an empty [agents] table; at least one agent is required"@,
                RosterError::BlankEntry { path, name } => text@ == "roster file "@ + path@
                    + " has an entry with an empty name or empty token (name: "@ + debug_text(name@)
                    + ")"@,
            },
    {
        match self {
            RosterError::Read { path, source } => {
                let mut text = "cannot read roster file ".to_string();
                text.append(path.as_str());
                text.append(": ");
                text.append(source.as_str());
                text
            },
            RosterError::Parse { path, place } => {
                let mut text = "invalid roster file ".to_string();
                text.append(path.as_str());
                text.append(": expected an [agents] table of tokens and nothing else");
                text.append(describe_place(*place).as_str());
                text
            },
            RosterError::Empty { path } => {
                let mut text = "roster file ".to_string();
                text.append(path.as_str());
                text.append(" has an empty [agents] table; at least one agent is required");
                text
            },
            RosterError::BlankEntry { path, name } => describe_blank_entry(
                path.as_str(),
                quoted(name.as_str()).as_str(),
            ),
        }
    }
}

/// The contents of a list of names and tokens.
pub open spec fn entries_view(entries: Seq<(String, String)>) -> Seq<(Seq<char>, Seq<char>)> {
    entries.map_values(|entry: (String, String)| (entry.0@, entry.1@))
}

/// The contents of a list of named tables.
pub open spec fn tables_view(tables: Seq<(String, Vec<(String, String)>)>) -> Seq<
    (Seq<char>, Seq<(Seq<char>, Seq<char>)>),
> {
    tables.map_values(
        |table: (String, Vec<(String, String)>)| (table.0@, entries_view(table.1@)),
    )
}

/// What the toml crate makes of `text` as a file of tables of strings: the tables
/// with their entries; `None` for a text that is no such file.
pub uninterp spec fn toml_tables(text: Seq<char>) -> Option<
    Seq<(Seq<char>, Seq<(Seq<char>, Seq<char>)>)>,
>;

/// Calls `toml::from_str` for a map of maps of strings and hands out its entries. The
/// claim is that the outcome is a function of the text.
#[verifier::external_body]
fn parse_tables(text: &str) -> (parsed: Option<Vec<(String, Vec<(String, String)>)>>)
    ensures
        match parsed {
            Some(tables) => toml_tables(text@) == Some(tables_view(tables@)),
            None => toml_tables(text@) is None,
        },
{
    let tables = toml::from_str::<BTreeMap<String, BTreeMap<String, String>>>(text).ok()?;
    Some(tables.into_iter().map(|(name, table)| (name, table.into_iter().collect())).collect())
}

/// An entry that would make an identity unauthenticatable or trivially forgeable.
pub open spec fn blank(entry: (Seq<char>, Seq<char>)) -> bool {
    entry.0.len() == 0 || entry.1.len() == 0
}

/// The name of the first blank entry.
pub open spec fn first_blank(entries: Seq<(Seq<char>, Seq<char>)>) -> Option<Seq<char>>
    decreases entries.len(),
{
    if entries.len() == 0 {
        None
    } else if blank(entries[0]) {
        Some(entries[0].0)
    } else {
        first_blank(entries.drop_first())
    }
}

/// The map that `entries` spell out; of two entries for one name the later counts.
pub open spec fn agents_of(entries: Seq<(Seq<char>, Seq<char>)>) -> Map<Seq<char>, Seq<char>>
    decreases entries.len(),
{
    if entries.len() == 0 {
        Map::empty()
    } else {
        agents_of(entries.drop_last()).insert(entries.last().0, entries.last().1)
    }
}

/// At least one agent, and no empty name or token.
pub open spec fn usable(agents: Map<Seq<char>, Seq<char>>) -> bool {
    &&& exists|name: Seq<char>| #[trigger] agents.contains_key(name)
    &&& forall|name: Seq<char>| #[trigger]
        agents.contains_key(name) ==> name.len() > 0 && agents[name].len() > 0
}

proof fn lemma_first_blank(entries: Seq<(Seq<char>, Seq<char>)>)
    ensures
        first_blank(entries) is None <==> forall|k: int|
            0 <= k < entries.len() ==> !blank(#[trigger] entries[k]),
    decreases entries.len(),
{
    if entries.len() > 0 {
        let rest = entries.drop_first();
        lemma_first_blank(rest);
        if first_blank(rest) is None && !blank(entries[0]) {
            assert forall|k: int| 0 <= k < entries.len() implies !blank(#[trigger] entries[k]) by {
                if k > 0 {
                    assert(!blank(rest[k - 1]));
                }
            }
        }
        if forall|k: int| 0 <= k < entries.len() ==> !blank(#[trigger] entries[k]) {
            assert forall|k: int| 0 <= k < rest.len() implies !blank(#[trigger] rest[k]) by {
                assert(!blank(entries[k + 1]));
            }
            assert(!blank(entries[0]));
        }
    }
}

proof fn lemma_agents_usable(entries: Seq<(Seq<char>, Seq<char>)>)
    requires
        forall|j: int| 0 <= j < entries.len() ==> !blank(#[trigger] entries[j]),
    ensures
        forall|name: Seq<char>| #[trigger]
            agents_of(entries).contains_key(name) ==> name.len() > 0 && agents_of(
                entries,
            )[name].len() > 0,
        entries.len() > 0 ==> usable(agents_of(entries)),
    decreases entries.len(),
{
    if entries.len() > 0 {
        let init = entries.drop_last();
        assert forall|j: int| 0 <= j < init.len() implies !blank(#[trigger] init[j]) by {
            assert(init[j] == entries[j]);
        }
        lemma_agents_usable(init);
        assert(!blank(entries[entries.len() - 1]));
        let agents = agents_of(entries);
        assert(agents.contains_key(entries.last().0));
        assert forall|name: Seq<char>| #[trigger] agents.contains_key(name) implies name.len() > 0
            && agents[name].len() > 0 by {
            if name != entries.last().0 {
                assert(agents_of(init).contains_key(name));
            }
        }
    }
}

/// The outcome for a roster file whose `[agents]` table has these entries.
pub open spec fn roster_of(path: Seq<char>, entries: Seq<(Seq<char>, Seq<char>)>) -> Result<
    Map<Seq<char>, Seq<char>>,
    RosterErrorView,
> {
    if entries.len() == 0 {
        Err(RosterErrorView::Empty { path })
    } else {
        match first_blank(entries) {
            Some(name) => Err(RosterErrorView::BlankEntry { path, name }),
            None => Ok(agents_of(entries)),
        }
    }
}

/// The outcome for a file that is no roster, where `at` is the byte at which the
/// strict parser stopped, if it knows one.
pub open spec fn no_roster(path: Seq<char>, bytes: Seq<u8>, at: Option<usize>) -> RosterErrorView {
    RosterErrorView::Parse {
        path,
        place: match at {
            Some(offset) => {
                let (line, column) = position_in(bytes, offset as int);
                Some(Place { line, column })
            },
            None => None,
        },
    }
}

/// The outcome for a roster file with these bytes that holds these tables, or is no
/// file of tables of strings: there must be the one table `[agents]`.
pub open spec fn decided(
    path: Seq<char>,
    bytes: Seq<u8>,
    parsed: Option<Seq<(Seq<char>, Seq<(Seq<char>, Seq<char>)>)>>,
    at: Option<usize>,
) -> Result<Map<Seq<char>, Seq<char>>, RosterErrorView> {
    match parsed {
        Some(tables) => if tables.len() == 1 && tables[0].0 == "agents"@ {
            roster_of(path, tables[0].1)
        } else {
            Err(no_roster(path, bytes, at))
        },
        None => Err(no_roster(path, bytes, at)),
    }
}

fn from_entries(path: &str, entries: &Vec<(String, String)>) -> (loaded: Result<Roster, RosterError>)
    ensures
        match loaded {
            Ok(roster) => {
                &&& roster.agents.wf()
                &&& roster_of(path@, entries_view(entries@)) == Ok::<_, RosterErrorView>(roster@)
                &&& usable(roster@)
            },
            Err(error) => roster_of(path@, entries_view(entries@)) == Err::<
                Map<Seq<char>, Seq<char>>,
                _,
            >(error@),
        },
        loaded matches Ok(roster) ==> {
            &&& forall|k: int|
                0 <= k < entries@.len() && (forall|m: int|
                    k < m < entries@.len() ==> (#[trigger] entries@[m]).0@ != entries@[k].0@)
                    ==> roster@.contains_key((#[trigger] entries@[k]).0@)
                    && roster@[entries@[k].0@] == entries@[k].1@
            &&& forall|name: Seq<char>| #[trigger]
                roster@.contains_key(name) ==> exists|k: int|
                    0 <= k < entries@.len() && (#[trigger] entries@[k]).0@ == name
        },
{
    let ghost all = entries_view(entries@);
    if entries.len() == 0 {
        return Err(RosterError::Empty { path: path.to_string() });
    }
    let mut roster = Roster { agents: NameTable::new() };
    let mut i: usize = 0;
    assert(roster@ =~= agents_of(all.take(0)));
    assert(all.skip(0) =~= all);
    while i < entries.len()
        invariant
            i <= entries@.len(),
            entries@.len() > 0,
            all == entries_view(entries@),
            roster.agents.wf(),
            roster@ == agents_of(all.take(i as int)),
            first_blank(all.skip(i as int)) == first_blank(all),
            forall|j: int| 0 <= j < i ==> !blank(#[trigger] all[j]),
        decreases entries@.len() - i,
    {
        let entry = &entries[i];
        assert(all.skip(i as int)[0] == all[i as int]);
        assert(all.skip(i as int).drop_first() =~= all.skip(i + 1));
        if entry.0.as_str().is_empty() || entry.1.as_str().is_empty() {
            return Err(RosterError::BlankEntry { path: path.to_string(), name: entry.0.clone() });
        }
        roster.agents.insert(entry.0.clone(), entry.1.clone());
        proof {
            assert(all.take(i + 1).drop_last() =~= all.take(i as int));
            assert(roster@ =~= agents_of(all.take(i + 1)));
        }
        i = i + 1;
    }
    proof {
        assert(all.take(i as int) =~= all);
        lemma_agents_usable(all);
        lemma_first_blank(all);
        assert forall|k: int|
            0 <= k < entries@.len() && (forall|m: int|
                k < m < entries@.len() ==> (#[trigger] entries@[m]).0@ != entries@[k].0@) implies roster@.contains_key(
            (#[trigger] entries@[k]).0@,
        ) && roster@[entries@[k].0@] == entries@[k].1@ by {
            assert forall|m: int| k < m < all.len() implies (#[trigger] all[m]).0 != all[k].0 by {
                assert(entries@[m].0@ != entries@[k].0@);
            }
            lemma_every_entry_counts(all, k);
        }
        assert forall|name: Seq<char>| #[trigger] roster@.contains_key(name) implies exists|k: int|
            0 <= k < entries@.len() && (#[trigger] entries@[k]).0@ == name by {
            lemma_only_entries_count(all, name);
            let k = choose|k: int| 0 <= k < all.len() && (#[trigger] all[k]).0 == name;
            assert(entries@[k].0@ == name);
        }
    }
    Ok(roster)
}

fn not_a_roster(path: &str, text: &str, at: Option<usize>) -> (error: RosterError)
    ensures
        error@ == no_roster(path@, text.spec_bytes(), at),
{
    let place = match at {
        Some(offset) => {
            let (line, column) = position(text.as_bytes(), offset);
            Some(Place { line, column })
        },
        None => None,
    };
    RosterError::Parse { path: path.to_string(), place }
}

/// Decides on the roster file at `path` once it has been read, or could not be. A
/// roster that loads is usable. `at` is the byte at which the strict parser stopped;
/// it gives the place of the fault where the text is no roster.
pub fn load(path: &str, file: Result<String, String>, at: Option<usize>) -> (loaded: Result<
    Roster,
    RosterError,
>)
    ensures
        match file {
            Err(source) => loaded is Err && loaded->Err_0@ == (RosterErrorView::Read {
                path: path@,
                source: source@,
            }),
            Ok(text) => match loaded {
                Ok(roster) => {
                    &&& roster.agents.wf()
                    &&& decided(path@, encode_utf8(text@), toml_tables(text@), at) == Ok::<
                        _,
                        RosterErrorView,
                    >(roster@)
                    &&& usable(roster@)
                },
                Err(error) => decided(path@, encode_utf8(text@), toml_tables(text@), at) == Err::<
                    Map<Seq<char>, Seq<char>>,
                    _,
                >(error@),
            },
        },
        loaded matches Ok(roster) ==> {
            &&& file matches Ok(text)
            &&& toml_tables(text@) matches Some(tables)
            &&& tables.len() == 1
            &&& tables[0].0 == "agents"@
            &&& forall|k: int|
                0 <= k < tables[0].1.len() && (forall|m: int|
                    k < m < tables[0].1.len() ==> (#[trigger] tables[0].1[m]).0
                        != tables[0].1[k].0) ==> roster@.contains_key(
                    (#[trigger] tables[0].1[k]).0,
                ) && roster@[tables[0].1[k].0] == tables[0].1[k].1
            &&& forall|name: Seq<char>| #[trigger]
                roster@.contains_key(name) ==> exists|k: int|
                    0 <= k < tables[0].1.len() && (#[trigger] tables[0].1[k]).0 == name
        },
{
    match file {
        Err(source) => Err(RosterError::Read { path: path.to_string(), source }),
        Ok(text) => {
            let loaded = load_parsed(path, text.as_str(), parse_tables(text.as_str()), at);
            proof {
                if loaded is Ok {
                    lemma_roster_is_its_entries(
                        path@,
                        encode_utf8(text@),
                        toml_tables(text@)->0,
                        at,
                        loaded->Ok_0@,
                    );
                }
            }
            loaded
        },
    }
}

/// [`load`], with the outcome of parsing the file's text as an argument.
pub fn load_parsed(
    path: &str,
    text: &str,
    parsed: Option<Vec<(String, Vec<(String, String)>)>>,
    at: Option<usize>,
) -> (loaded: Result<Roster, RosterError>)
    ensures
        ({
            let outcome = decided(
                path@,
                encode_utf8(text@),
                match parsed {
                    Some(tables) => Some(tables_view(tables@)),
                    None => None,
                },
                at,
            );
            match loaded {
                Ok(roster) => {
                    &&& roster.agents.wf()
                    &&& outcome == Ok::<_, RosterErrorView>(roster@)
                    &&& usable(roster@)
                },
                Err(error) => outcome == Err::<Map<Seq<char>, Seq<char>>, _>(error@),
            }
        }),
        loaded matches Ok(roster) ==> {
            &&& parsed matches Some(tables)
            &&& tables@.len() == 1
            &&& tables@[0].0@ == "agents"@
            &&& forall|k: int|
                0 <= k < tables@[0].1@.len() && (forall|m: int|
                    k < m < tables@[0].1@.len() ==> (#[trigger] tables@[0].1@[m]).0@
                        != tables@[0].1@[k].0@) ==> roster@.contains_key(
                    (#[trigger] tables@[0].1@[k]).0@,
                ) && roster@[tables@[0].1@[k].0@] == tables@[0].1@[k].1@
            &&& forall|name: Seq<char>| #[trigger]
                roster@.contains_key(name) ==> exists|k: int|
                    0 <= k < tables@[0].1@.len() && (#[trigger] tables@[0].1@[k]).0@ == name
        },
        loaded is Ok <==> {
            &&& parsed matches Some(tables)
            &&& tables@.len() == 1
            &&& tables@[0].0@ == "agents"@
            &&& tables@[0].1@.len() > 0
            &&& forall|k: int|
                0 <= k < tables@[0].1@.len() ==> (#[trigger] tables@[0].1@[k]).0@.len() > 0
                    && tables@[0].1@[k].1@.len() > 0
        },
{
    proof {
        if parsed is Some {
            let tables = parsed->0;
            if tables@.len() == 1 {
                let all = entries_view(tables@[0].1@);
                lemma_first_blank(all);
                assert forall|k: int| 0 <= k < all.len() implies (#[trigger] all[k])
                    == (tables@[0].1@[k].0@, tables@[0].1@[k].1@) by {}
                assert forall|k: int| 0 <= k < tables@[0].1@.len() implies all[k] == (
                    (#[trigger] tables@[0].1@[k]).0@,
                    tables@[0].1@[k].1@,
                ) by {}
                assert forall|k: int| 0 <= k < tables@[0].1@.len() implies (blank(all[k]) <==> (
                #[trigger] tables@[0].1@[k]).0@.len() == 0 || tables@[0].1@[k].1@.len() == 0) by {}
            }
        }
    }
    match parsed {
        Some(tables) => if tables.len() == 1 && tables[0].0 == "agents".to_string() {
            from_entries(path, &tables[0].1)
        } else {
            Err(not_a_roster(path, text, at))
        },
        None => Err(not_a_roster(path, text, at)),
    }
}

/// No error tells anything of the tokens: for two files that differ in nothing but
/// token values, each of them some text, the outcome is either a roster for both or
/// the same error for both.
pub proof fn lemma_errors_hold_no_token(
    path: Seq<char>,
    bytes: Seq<u8>,
    other_bytes: Seq<u8>,
    entries: Seq<(Seq<char>, Seq<char>)>,
    others: Seq<(Seq<char>, Seq<char>)>,
    at: Option<usize>,
    other_at: Option<usize>,
)
    requires
        entries.len() == others.len(),
        forall|k: int|
            0 <= k < entries.len() ==> (#[trigger] entries[k]).0 == others[k].0 && (
            entries[k].1.len() == 0 <==> others[k].1.len() == 0),
    ensures
        ({
            let one = decided(path, bytes, Some(seq![("agents"@, entries)]), at);
            let two = decided(path, other_bytes, Some(seq![("agents"@, others)]), other_at);
            match one {
                Ok(_) => two is Ok,
                Err(error) => two == Err::<Map<Seq<char>, Seq<char>>, _>(error),
            }
        }),
{
    lemma_blanks_agree(entries, others);
}

proof fn lemma_blanks_agree(
    entries: Seq<(Seq<char>, Seq<char>)>,
    others: Seq<(Seq<char>, Seq<char>)>,
)
    requires
        entries.len() == others.len(),
        forall|k: int|
            0 <= k < entries.len() ==> (#[trigger] entries[k]).0 == others[k].0 && (
            entries[k].1.len() == 0 <==> others[k].1.len() == 0),
    ensures
        first_blank(entries) == first_blank(others),
    decreases entries.len(),
{
    if entries.len() > 0 {
        assert(entries[0].0 == others[0].0);
        let rest = entries.drop_first();
        let other_rest = others.drop_first();
        assert forall|k: int| 0 <= k < rest.len() implies (#[trigger] rest[k]).0 == other_rest[k].0
            && (rest[k].1.len() == 0 <==> other_rest[k].1.len() == 0) by {
            assert(entries[k + 1].0 == others[k + 1].0);
        }
        lemma_blanks_agree(rest, other_rest);
    }
}

/// Why `name` with `token` does not authenticate against `agents`; `None` when it
/// does.
pub open spec fn auth_failure(
    agents: Map<Seq<char>, Seq<char>>,
    name: Seq<char>,
    token: Seq<char>,
) -> Option<AuthFailureReason> {
    if !agents.contains_key(name) {
        Some(AuthFailureReason::UnknownName)
    } else if agents[name] != token {
        Some(AuthFailureReason::TokenMismatch)
    } else {
        None
    }
}

impl Roster {
    /// Verifies an asserted name and its token: the name must have an entry, and
    /// the token must be that entry's.
    pub fn authenticate(&self, name: &str, token: &String) -> (failure: Option<AuthFailureReason>)
        requires
            self.agents.wf(),
        ensures
            failure == auth_failure(self@, name@, token@),
            failure is None <==> self.agents@.contains_key(name@) && self.agents@[name@]@ == token@,
            failure == Some(AuthFailureReason::UnknownName) <==> !self.agents@.contains_key(name@),
    {
        match self.agents.get(name) {
            None => Some(AuthFailureReason::UnknownName),
            Some(expected) => if *expected == *token {
                None
            } else {
                Some(AuthFailureReason::TokenMismatch)
            },
        }
    }
}

/// Against a usable roster no one gets in without a name or without a token.
pub proof fn lemma_blank_never_authenticates(
    agents: Map<Seq<char>, Seq<char>>,
    name: Seq<char>,
    token: Seq<char>,
)
    requires
        usable(agents),
        name.len() == 0 || token.len() == 0,
    ensures
        auth_failure(agents, name, token) is Some,
{
}

/// The contents of a roster are its names with the texts of their tokens.
pub proof fn lemma_contents_of_a_roster(roster: Roster, name: Seq<char>)
    ensures
        roster@.contains_key(name) <==> roster.agents@.contains_key(name),
        roster@.contains_key(name) ==> roster@[name] == roster.agents@[name]@,
{
}

/// Every entry counts: unless a later one repeats its name, its name is in the map with
/// its token.
pub proof fn lemma_every_entry_counts(entries: Seq<(Seq<char>, Seq<char>)>, k: int)
    requires
        0 <= k < entries.len(),
        forall|m: int| k < m < entries.len() ==> (#[trigger] entries[m]).0 != entries[k].0,
    ensures
        agents_of(entries).contains_key(entries[k].0),
        agents_of(entries)[entries[k].0] == entries[k].1,
    decreases entries.len(),
{
    let init = entries.drop_last();
    if k < init.len() {
        assert forall|m: int| k < m < init.len() implies (#[trigger] init[m]).0 != init[k].0 by {
            assert(entries[m].0 != entries[k].0);
        }
        lemma_every_entry_counts(init, k);
        assert(entries[entries.len() - 1].0 != entries[k].0);
    }
}

/// Only entries count: every name in the map is the name of an entry.
pub proof fn lemma_only_entries_count(entries: Seq<(Seq<char>, Seq<char>)>, name: Seq<char>)
    requires
        agents_of(entries).contains_key(name),
    ensures
        exists|k: int| 0 <= k < entries.len() && (#[trigger] entries[k]).0 == name,
    decreases entries.len(),
{
    let init = entries.drop_last();
    assert(entries.len() > 0);
    if entries.last().0 == name {
        assert(entries[entries.len() - 1].0 == name);
    } else {
        lemma_only_entries_count(init, name);
        let k = choose|k: int| 0 <= k < init.len() && (#[trigger] init[k]).0 == name;
        assert(entries[k].0 == name);
    }
}

/// A roster that loads is its `[agents]` table: that table is all that the file holds,
/// no entry in it is blank, each entry whose name no later one repeats is there with
/// its token, and no other name is there.
pub proof fn lemma_roster_is_its_entries(
    path: Seq<char>,
    bytes: Seq<u8>,
    tables: Seq<(Seq<char>, Seq<(Seq<char>, Seq<char>)>)>,
    at: Option<usize>,
    agents: Map<Seq<char>, Seq<char>>,
)
    requires
        decided(path, bytes, Some(tables), at) == Ok::<_, RosterErrorView>(agents),
    ensures
        tables.len() == 1,
        tables[0].0 == "agents"@,
        tables[0].1.len() > 0,
        forall|k: int|
            0 <= k < tables[0].1.len() ==> (#[trigger] tables[0].1[k]).0.len() > 0
                && tables[0].1[k].1.len() > 0,
        forall|k: int|
            0 <= k < tables[0].1.len() && (forall|m: int|
                k < m < tables[0].1.len() ==> (#[trigger] tables[0].1[m]).0 != tables[0].1[k].0)
                ==> agents.contains_key((#[trigger] tables[0].1[k]).0)
                && agents[tables[0].1[k].0] == tables[0].1[k].1,
        forall|name: Seq<char>| #[trigger]
            agents.contains_key(name) ==> exists|k: int|
                0 <= k < tables[0].1.len() && (#[trigger] tables[0].1[k]).0 == name,
{
    let entries = tables[0].1;
    lemma_first_blank(entries);
    assert forall|k: int| 0 <= k < entries.len() implies (#[trigger] tables[0].1[k]).0.len() > 0
        && tables[0].1[k].1.len() > 0 by {
        assert(!blank(entries[k]));
    }
    assert forall|k: int|
        0 <= k < entries.len() && (forall|m: int|
            k < m < entries.len() ==> (#[trigger] entries[m]).0 != entries[k].0) implies agents.contains_key(
        (#[trigger] entries[k]).0,
    ) && agents[entries[k].0] == entries[k].1 by {
        lemma_every_entry_counts(entries, k);
    }
    assert forall|name: Seq<char>| #[trigger] agents.contains_key(name) implies exists|k: int|
        0 <= k < tables[0].1.len() && (#[trigger] tables[0].1[k]).0 == name by {
        lemma_only_entries_count(entries, name);
    }
}

/// Which files are no roster, and what is said of them. An empty table is one fault;
/// the first entry without a name or without a token is another, whichever comes after
/// it; any other table, or none, is a third. Everything else loads.
pub proof fn lemma_roster_faults(
    path: Seq<char>,
    bytes: Seq<u8>,
    tables: Seq<(Seq<char>, Seq<(Seq<char>, Seq<char>)>)>,
    at: Option<usize>,
    k: int,
)
    ensures
        ({
            let outcome = decided(path, bytes, Some(tables), at);
            if tables.len() == 1 && tables[0].0 == "agents"@ {
                let entries = tables[0].1;
                &&& entries.len() == 0 ==> outcome == Err::<Map<Seq<char>, Seq<char>>, _>(
                    RosterErrorView::Empty { path },
                )
                &&& 0 <= k < entries.len() && (entries[k].0.len() == 0 || entries[k].1.len() == 0)
                    && (forall|m: int|
                    0 <= m < k ==> (#[trigger] entries[m]).0.len() > 0 && entries[m].1.len() > 0)
                    ==> outcome == Err::<Map<Seq<char>, Seq<char>>, _>(
                    RosterErrorView::BlankEntry { path, name: entries[k].0 },
                )
                &&& entries.len() > 0 && (forall|m: int|
                    0 <= m < entries.len() ==> (#[trigger] entries[m]).0.len() > 0
                        && entries[m].1.len() > 0) ==> outcome is Ok
            } else {
                outcome == decided(path, bytes, None, at)
            }
        }),
        decided(path, bytes, None, at) matches Err(RosterErrorView::Parse { path: named, place })
            && named == path && match at {
            Some(offset) => place == Some(
                Place {
                    line: position_in(bytes, offset as int).0,
                    column: position_in(bytes, offset as int).1,
                },
            ),
            None => place is None,
        },
{
    if tables.len() == 1 && tables[0].0 == "agents"@ {
        let entries = tables[0].1;
        lemma_first_blank(entries);
        if 0 <= k < entries.len() && (entries[k].0.len() == 0 || entries[k].1.len() == 0) && (
        forall|m: int|
            0 <= m < k ==> (#[trigger] entries[m]).0.len() > 0 && entries[m].1.len() > 0) {
            lemma_first_blank_is(entries, k);
        }
        if forall|m: int|
            0 <= m < entries.len() ==> (#[trigger] entries[m]).0.len() > 0 && entries[m].1.len()
                > 0 {
            assert forall|m: int| 0 <= m < entries.len() implies !blank(#[trigger] entries[m]) by {}
        }
    }
}

proof fn lemma_first_blank_is(entries: Seq<(Seq<char>, Seq<char>)>, k: int)
    requires
        0 <= k < entries.len(),
        blank(entries[k]),
        forall|m: int| 0 <= m < k ==> (#[trigger] entries[m]).0.len() > 0 && entries[m].1.len() > 0,
    ensures
        first_blank(entries) == Some(entries[k].0),
    decreases entries.len(),
{
    if k > 0 {
        let rest = entries.drop_first();
        assert(!blank(entries[0]));
        assert forall|m: int| 0 <= m < k - 1 implies (#[trigger] rest[m]).0.len() > 0
            && rest[m].1.len() > 0 by {
            assert(rest[m] == entries[m + 1]);
        }
        assert(rest[k - 1] == entries[k]);
        lemma_first_blank_is(rest, k - 1);
    }
}

/// Who authenticates against a roster that loaded: whoever presents the name and the
/// token of an entry that no later one overrides, and no one whose name is in no entry.
pub proof fn lemma_entries_authenticate(
    path: Seq<char>,
    bytes: Seq<u8>,
    tables: Seq<(Seq<char>, Seq<(Seq<char>, Seq<char>)>)>,
    at: Option<usize>,
    agents: Map<Seq<char>, Seq<char>>,
    k: int,
    name: Seq<char>,
    token: Seq<char>,
)
    requires
        decided(path, bytes, Some(tables), at) == Ok::<_, RosterErrorView>(agents),
        0 <= k < tables[0].1.len(),
        forall|m: int|
            k < m < tables[0].1.len() ==> (#[trigger] tables[0].1[m]).0 != tables[0].1[k].0,
    ensures
        auth_failure(agents, tables[0].1[k].0, token) is None <==> token == tables[0].1[k].1,
        token != tables[0].1[k].1 ==> auth_failure(agents, tables[0].1[k].0, token) == Some(
            AuthFailureReason::TokenMismatch,
        ),
        (forall|m: int| 0 <= m < tables[0].1.len() ==> (#[trigger] tables[0].1[m]).0 != name)
            ==> auth_failure(agents, name, token) == Some(AuthFailureReason::UnknownName),
{
    lemma_roster_is_its_entries(path, bytes, tables, at, agents);
}

/// The contents of an error leave nothing out.
pub proof fn lemma_contents_of_a_roster_error(error: RosterError)
    ensures
        match error {
            RosterError::Read { path, source } => error@ == (RosterErrorView::Read {
                path: path@,
                source: source@,
            }),
            RosterError::Parse { path, place } => error@ == (RosterErrorView::Parse {
                path: path@,
                place,
            }),
            RosterError::Empty { path } => error@ == (RosterErrorView::Empty { path: path@ }),
            RosterError::BlankEntry { path, name } => error@ == (RosterErrorView::BlankEntry {
                path: path@,
                name: name@,
            }),
        },
{
}

} // verus!
