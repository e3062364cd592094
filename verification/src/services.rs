//! The table of well-known services: which name goes with which port.
//!
//! The table is read from the lines of a services database. A line counts
//! when it holds a word, white space and a number; the word is the service's
//! name and the number, as it is written, the port.

use crate::decimal::{decimal_string, decimal_text};
use vstd::hash_map::StringHashMap;
use vstd::prelude::*;

verus! {

/// Makes `regex::Regex`, a compiled regular expression, known as a type.
/// Nothing inside it is visible to the proofs.
#[verifier::external_type_specification]
#[verifier::external_body]
pub struct ExRegex(regex::Regex);

/// Makes `regex::Error`, the reason why a pattern did not compile, known as
/// a type. Nothing inside it is visible to the proofs.
#[verifier::external_type_specification]
#[verifier::external_body]
pub struct ExRegexError(regex::Error);

/// What a regular expression compiled from `pattern` by `regex::Regex::new`
/// captures in `text`: `None` when the pattern occurs nowhere in it, else,
/// for the leftmost occurrence, the text of every capture group in the order
/// of the groups' opening brackets, the whole occurrence first; a group that
/// took no part in the match is `None`.
pub uninterp spec fn pattern_captures(pattern: Seq<char>, text: Seq<char>) -> Option<
    Seq<Option<Seq<char>>>,
>;

/// What `regex::Regex::captures` returns for the compiled expression `re`
/// and the haystack `text`, in the same shape as `pattern_captures`. A
/// compiled expression never changes, so this depends on the two alone.
pub uninterp spec fn regex_captures(re: regex::Regex, text: Seq<char>) -> Option<
    Seq<Option<Seq<char>>>,
>;

/// Whether `regex::Regex::new` accepts `pattern`: it does when the pattern
/// is well-formed and the compiled expression stays under the engine's
/// default size limit. Compiling reads nothing but the pattern, so in one
/// build of the engine the answer depends on the pattern alone. The size of
/// a compiled expression is counted in the sizes of the target's types, so
/// for a pattern close to the limit the answer is fixed for a build, not
/// across targets of different word size.
pub uninterp spec fn pattern_compiles(pattern: Seq<char>) -> bool;

/// Calls `regex::Regex::new`. The contract names whether the pattern
/// compiles and claims of no pattern that it does. Of an expression that did
/// compile, it claims that in every text it captures what `pattern_captures`
/// names for the pattern it was compiled from: compiling is deterministic,
/// and `new` sets no option that would change the search.
#[verifier::external_body]
fn compile(pattern: &str) -> (compiled: Result<regex::Regex, regex::Error>)
    ensures
        compiled is Ok <==> pattern_compiles(pattern@),
        compiled matches Ok(re) ==> forall|text: Seq<char>| #[trigger]
            regex_captures(re, text) == pattern_captures(pattern@, text),
{
    regex::Regex::new(pattern)
}

/// Calls `regex::Regex::captures` and copies the text of each group out of
/// the match, in the order of `regex::Captures::iter`. The contract gives the
/// result its name and claims nothing more.
#[verifier::external_body]
fn captures(re: &regex::Regex, text: &str) -> (groups: Option<Vec<Option<String>>>)
    ensures
        groups.deep_view() == regex_captures(*re, text@),
{
    match re.captures(text) {
        None => None,
        Some(found) => Some(
            found.iter().map(|group| group.map(|part| part.as_str().to_string())).collect(),
        ),
    }
}

/// The pattern that marks a service line: a name, white space, a port.
pub const SERVICE_LINE_PATTERN: &'static str = "(\\w+)\\s+(\\d+)";

/// The position of the name among the capture groups.
pub const NAME_GROUP: usize = 1;

/// The position of the port among the capture groups.
pub const PORT_GROUP: usize = 2;

/// The text of the capture group at `index`; the empty text when there is
/// no such group or it took no part in the match.
pub open spec fn group_text(groups: Seq<Option<Seq<char>>>, index: int) -> Seq<char> {
    if 0 <= index < groups.len() {
        match groups[index] {
            Some(text) => text,
            None => Seq::empty(),
        }
    } else {
        Seq::empty()
    }
}

/// The port and the name that a line contributes to the table, given what
/// was captured in it: nothing when the line did not match, or when the
/// port or the name came out empty.
pub open spec fn entry_of(groups: Option<Seq<Option<Seq<char>>>>) -> Option<
    (Seq<char>, Seq<char>),
> {
    match groups {
        None => None,
        Some(list) => {
            let name = group_text(list, NAME_GROUP as int);
            let port = group_text(list, PORT_GROUP as int);
            if port.len() == 0 || name.len() == 0 {
                None
            } else {
                Some((port, name))
            }
        },
    }
}

/// The port and the name that a line of the database contributes.
pub open spec fn line_entry(line: Seq<char>) -> Option<(Seq<char>, Seq<char>)> {
    entry_of(pattern_captures(SERVICE_LINE_PATTERN@, line))
}

/// The table that a list of entries builds up, from the first to the last:
/// a later entry for a port replaces an earlier one.
pub open spec fn table_of(entries: Seq<Option<(Seq<char>, Seq<char>)>>) -> Map<
    Seq<char>,
    Seq<char>,
>
    decreases entries.len(),
{
    if entries.len() == 0 {
        Map::empty()
    } else {
        let earlier = table_of(entries.drop_last());
        match entries.last() {
            Some((port, name)) => earlier.insert(port, name),
            None => earlier,
        }
    }
}

/// The table that the lines of a services database describe.
pub open spec fn services_of(lines: Seq<Seq<char>>) -> Map<Seq<char>, Seq<char>> {
    table_of(lines.map_values(|line: Seq<char>| line_entry(line)))
}

/// The name that `table` has for `port`, looked up under the port's decimal
/// notation; the empty text when the table has none.
pub open spec fn service_name(table: Map<Seq<char>, Seq<char>>, port: int) -> Seq<char> {
    let key = decimal_text(port);
    if table.contains_key(key) {
        table[key]
    } else {
        Seq::empty()
    }
}

/// Copies the text of the capture group at `index`.
fn copy_group(groups: &Vec<Option<String>>, index: usize) -> (text: String)
    ensures
        text@ == group_text(groups.deep_view(), index as int),
{
    if index < groups.len() {
        match &groups[index] {
            Some(part) => part.clone(),
            None => String::new(),
        }
    } else {
        String::new()
    }
}

/// Decides what a line contributes to the table, given what was captured in
/// it: the port and the name, in this order, or nothing.
pub fn service_entry(groups: &Option<Vec<Option<String>>>) -> (entry: Option<(String, String)>)
    ensures
        entry.deep_view() == entry_of(groups.deep_view()),
{
    match groups {
        None => None,
        Some(list) => {
            let name = copy_group(list, NAME_GROUP);
            let port = copy_group(list, PORT_GROUP);
            if port.as_str().is_empty() || name.as_str().is_empty() {
                None
            } else {
                Some((port, name))
            }
        },
    }
}

/// Why a service table could not be built.
#[derive(Clone, Copy, Debug, PartialEq, Eq, Structural)]
pub enum LoadError {
    /// The pattern for service lines was refused by the regular expression
    /// engine.
    PatternRefused,
}

/// The compiled pattern for service lines.
pub struct ServiceLineMatcher {
    engine: regex::Regex,
}

impl ServiceLineMatcher {
    /// What the matcher captures in `text`: the line's capture groups, or
    /// nothing when the line holds no match.
    pub closed spec fn captures(&self, text: Seq<char>) -> Option<Seq<Option<Seq<char>>>> {
        regex_captures(self.engine, text)
    }

    /// The matcher finds in every text what the pattern for service lines
    /// describes.
    pub open spec fn recognizes_service_lines(&self) -> bool {
        forall|text: Seq<char>| #[trigger]
            self.captures(text) == pattern_captures(SERVICE_LINE_PATTERN@, text)
    }

    #[verifier::type_invariant]
    spec fn well_formed(self) -> bool {
        self.recognizes_service_lines()
    }

    /// Turns the outcome of compiling the pattern for service lines into a
    /// matcher: a compiled expression becomes the matcher's engine, a refusal
    /// becomes `PatternRefused`.
    pub fn from_compiled(compiled: Result<regex::Regex, regex::Error>) -> (made: Result<
        ServiceLineMatcher,
        LoadError,
    >)
        requires
            compiled matches Ok(re) ==> forall|text: Seq<char>| #[trigger]
                regex_captures(re, text) == pattern_captures(SERVICE_LINE_PATTERN@, text),
        ensures
            match compiled {
                Ok(re) => made matches Ok(matcher) && matcher.recognizes_service_lines()
                    && forall|text: Seq<char>| #[trigger]
                    matcher.captures(text) == regex_captures(re, text),
                Err(_) => made matches Err(reason) && reason == LoadError::PatternRefused,
            },
    {
        match compiled {
            Ok(engine) => Ok(ServiceLineMatcher { engine }),
            Err(_) => Err(LoadError::PatternRefused),
        }
    }

    /// Compiles the pattern for service lines. A matcher comes back exactly
    /// when the engine accepts the pattern, and it finds in every text what
    /// the pattern describes.
    pub fn new() -> (made: Result<ServiceLineMatcher, LoadError>)
        ensures
            made is Ok <==> pattern_compiles(SERVICE_LINE_PATTERN@),
            match made {
                Ok(matcher) => matcher.recognizes_service_lines(),
                Err(reason) => reason == LoadError::PatternRefused,
            },
    {
        ServiceLineMatcher::from_compiled(compile(SERVICE_LINE_PATTERN))
    }

    /// What the line contributes to the table: the port and the name.
    pub fn entry(&self, line: &str) -> (entry: Option<(String, String)>)
        ensures
            entry.deep_view() == line_entry(line@),
    {
        proof {
            use_type_invariant(self);
            assert(self.captures(line@) == pattern_captures(SERVICE_LINE_PATTERN@, line@));
        }
        let groups = captures(&self.engine, line);
        service_entry(&groups)
    }
}

/// The names of the well-known services, by port. The port is kept as it was
/// written in the database.
pub struct ServiceTable {
    names: StringHashMap<String>,
}

impl View for ServiceTable {
    type V = Map<Seq<char>, Seq<char>>;

    closed spec fn view(&self) -> Map<Seq<char>, Seq<char>> {
        self.names@.map_values(|name: String| name@)
    }
}

impl ServiceTable {
    /// A table without entries: every port is nameless.
    pub fn new() -> (table: ServiceTable)
        ensures
            table@ == Map::<Seq<char>, Seq<char>>::empty(),
    {
        let table = ServiceTable { names: StringHashMap::new() };
        assert(table@ =~= Map::<Seq<char>, Seq<char>>::empty());
        table
    }

    /// Records `name` for `port`, in place of any name the port had.
    pub fn insert(&mut self, port: String, name: String)
        ensures
            final(self)@ == old(self)@.insert(port@, name@),
    {
        self.names.insert(port, name);
        assert(self@ =~= old(self)@.insert(port@, name@));
    }

    /// How many ports have a name.
    pub fn len(&self) -> (count: usize)
        ensures
            count == self@.len(),
    {
        proof {
            assert(self@.dom() =~= self.names@.dom());
        }
        self.names.len()
    }

    /// The table that the lines describe, read from the first line to the
    /// last.
    pub fn from_lines(matcher: &ServiceLineMatcher, lines: &Vec<String>) -> (table: ServiceTable)
        ensures
            table@ == services_of(lines.deep_view()),
    {
        let mut table = ServiceTable::new();
        let ghost entries = lines.deep_view().map_values(|line: Seq<char>| line_entry(line));
        let mut i: usize = 0;
        assert(entries.take(0) =~= Seq::empty());
        while i < lines.len()
            invariant
                i <= lines.len(),
                entries == lines.deep_view().map_values(|line: Seq<char>| line_entry(line)),
                table@ == table_of(entries.take(i as int)),
            decreases lines.len() - i,
        {
            let found = matcher.entry(lines[i].as_str());
            proof {
                let next = entries.take(i + 1);
                assert(next.drop_last() =~= entries.take(i as int));
                assert(next.last() == line_entry(lines[i as int]@));
                assert(found.deep_view() == next.last());
            }
            match found {
                Some((port, name)) => {
                    table.insert(port, name);
                },
                None => {},
            }
            i = i + 1;
        }
        assert(entries.take(i as int) =~= entries);
        table
    }
}

/// Builds the service table with the matcher that was made, or passes on
/// the reason why none was made.
pub fn load_services_with(made: Result<ServiceLineMatcher, LoadError>, lines: &Vec<String>) -> (loaded:
    Result<ServiceTable, LoadError>)
    ensures
        match made {
            Ok(_) => loaded matches Ok(table) && table@ == services_of(lines.deep_view()),
            Err(reason) => loaded matches Err(passed) && passed == reason,
        },
{
    match made {
        Ok(matcher) => Ok(ServiceTable::from_lines(&matcher, lines)),
        Err(reason) => Err(reason),
    }
}

/// Builds the service table from the lines of a services database.
///
/// A line that holds no service is skipped; the lines around it still
/// count. Of two lines for one port the later one wins. The table is built
/// exactly when the regular expression engine accepts the pattern for
/// service lines; the lines themselves never make the loading fail.
pub fn load_services(lines: &Vec<String>) -> (loaded: Result<ServiceTable, LoadError>)
    ensures
        loaded is Ok <==> pattern_compiles(SERVICE_LINE_PATTERN@),
        match loaded {
            Ok(table) => table@ == services_of(lines.deep_view()),
            Err(reason) => reason == LoadError::PatternRefused,
        },
{
    load_services_with(ServiceLineMatcher::new(), lines)
}

/// The name of the service that is expected behind `port`, or the empty
/// string when the table knows none.
pub fn get_service_name(table: &ServiceTable, port: &i32) -> (name: String)
    ensures
        name@ == service_name(table@, *port as int),
{
    let key = decimal_string(*port);
    match table.names.get(key.as_str()) {
        Some(found) => found.clone(),
        None => String::new(),
    }
}

/// Looking a port up never changes what a later lookup returns: the answer
/// depends on the table and the port alone.
pub proof fn lemma_lookup_repeatable(
    table: Map<Seq<char>, Seq<char>>,
    port: int,
    first: Seq<char>,
    second: Seq<char>,
)
    requires
        first == service_name(table, port),
        second == service_name(table, port),
    ensures
        first == second,
{
}

/// A port that the table does not hold has the empty name.
pub proof fn lemma_unknown_port_is_nameless(table: Map<Seq<char>, Seq<char>>, port: int)
    requires
        !table.contains_key(decimal_text(port)),
    ensures
        service_name(table, port) == Seq::<char>::empty(),
{
}

} // verus!
