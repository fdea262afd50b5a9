//! Reference pages for the commands of a program, in Markdown: one page for
//! each service, with a table of its commands, a section for each command,
//! and the structs that the commands take and return.
//!
//! The records come from the caller, who reads them from source files; the
//! pages go back to the caller, who writes them.
use vstd::prelude::*;
use vstd::string::StringExecFns;
use crate::encoding::same_text;
use crate::text::{
    at_or_before, before_mark, cut_before, lemma_order_is_total, lemma_order_is_transitive,
    lowercase, lowercase_of, stands_at_or_before, stripped, stripped_of,
};
use vstd::seq_lib::to_multiset_insert;
use vstd::utf8::encode_utf8;

verus! {

/// What is known of a command: the service it belongs to, its name, the
/// types of its argument and of its result as they are written, and its
/// description.
#[derive(Debug, Clone, PartialEq, Eq)]
pub struct CommandDoc {
    pub service: String,
    pub name: String,
    pub args: Option<String>,
    pub ret: Option<String>,
    pub description: String,
}

/// A command record as plain data.
pub struct CommandView {
    pub service: Seq<char>,
    pub name: Seq<char>,
    pub args: Option<Seq<char>>,
    pub ret: Option<Seq<char>>,
    pub description: Seq<char>,
}

/// The text of an optional text.
pub open spec fn text_of(text: Option<String>) -> Option<Seq<char>> {
    match text {
        Some(t) => Some(t@),
        None => None,
    }
}

impl View for CommandDoc {
    type V = CommandView;

    open spec fn view(&self) -> CommandView {
        CommandView {
            service: self.service@,
            name: self.name@,
            args: text_of(self.args),
            ret: text_of(self.ret),
            description: self.description@,
        }
    }
}

/// What is known of a struct: its name, its description, and for each named
/// field the name, the type as it is written, and the description.
#[derive(Debug, Clone, PartialEq, Eq)]
pub struct StructDoc {
    pub name: String,
    pub description: String,
    pub fields: Vec<(String, String, String)>,
}

/// A struct record as plain data.
pub struct StructView {
    pub name: Seq<char>,
    pub description: Seq<char>,
    pub fields: Seq<(Seq<char>, Seq<char>, Seq<char>)>,
}

impl View for StructDoc {
    type V = StructView;

    open spec fn view(&self) -> StructView {
        StructView {
            name: self.name@,
            description: self.description@,
            fields: Seq::new(
                self.fields@.len(),
                |i: int| (self.fields@[i].0@, self.fields@[i].1@, self.fields@[i].2@),
            ),
        }
    }
}

/// A page: the name of its file and its text.
#[derive(Debug, Clone, PartialEq, Eq)]
pub struct Page {
    pub file_name: String,
    pub text: String,
}

/// A page as plain data.
pub struct PageView {
    pub file_name: Seq<char>,
    pub text: Seq<char>,
}

impl View for Page {
    type V = PageView;

    open spec fn view(&self) -> PageView {
        PageView { file_name: self.file_name@, text: self.text@ }
    }
}

/// The texts that `each` makes of the items, one after the other.
pub open spec fn in_a_row<T>(items: Seq<T>, each: spec_fn(T) -> Seq<char>) -> Seq<char>
    decreases items.len(),
{
    if items.len() == 0 {
        Seq::empty()
    } else {
        in_a_row(items.drop_last(), each) + each(items.last())
    }
}

/// One more item adds its text at the end.
pub proof fn lemma_in_a_row_step<T>(items: Seq<T>, each: spec_fn(T) -> Seq<char>, count: int)
    requires
        0 <= count < items.len(),
    ensures
        in_a_row(items.take(count + 1), each) == in_a_row(items.take(count), each) + each(
            items[count],
        ),
{
    assert(items.take(count + 1).drop_last() =~= items.take(count));
}

/// A type as the table shows it: `()` for none, and for the word `_none_`.
pub open spec fn shown_or_unit(ty: Option<Seq<char>>) -> Seq<char> {
    match ty {
        Some(t) => if t == "_none_"@ {
            "()"@
        } else {
            t
        },
        None => "()"@,
    }
}

/// The argument as the signature shows it: nothing for none, and for the
/// word `_none_`.
pub open spec fn shown_argument(ty: Option<Seq<char>>) -> Seq<char> {
    match ty {
        Some(t) => if t == "_none_"@ {
            Seq::empty()
        } else {
            t
        },
        None => Seq::empty(),
    }
}

/// The result as the signature shows it: `()` for none.
pub open spec fn shown_result(ty: Option<Seq<char>>) -> Seq<char> {
    match ty {
        Some(t) => t,
        None => "()"@,
    }
}

/// The row of a command in the table of its page. The name links to the
/// section of the command, whose anchor is the name in lower case.
pub open spec fn index_row(command: CommandView) -> Seq<char> {
    "| ["@ + command.name + "](#"@ + lowercase_of(command.name) + ") | `"@ + shown_or_unit(
        command.args,
    ) + "` | `"@ + shown_or_unit(command.ret) + "` | "@ + command.description + " |\n"@
}

/// The section of a command: its name as a heading, its signature, and its
/// description where it has one.
pub open spec fn detail_section(command: CommandView) -> Seq<char> {
    "\n## "@ + command.name + "\n\n"@ + "**Signature:** `fn "@ + command.name + "("@
        + shown_argument(command.args) + ") -> "@ + shown_result(command.ret) + "`\n\n"@ + (
    if command.description.len() > 0 {
        "**Description:**  \n"@ + command.description + "\n\n"@
    } else {
        Seq::empty()
    })
}

/// The row of a field in the table of its struct.
pub open spec fn field_row(field: (Seq<char>, Seq<char>, Seq<char>)) -> Seq<char> {
    "| `"@ + field.0 + "` | `"@ + field.1 + "` | "@ + field.2 + " |\n"@
}

/// The section of a struct: its name as a heading, its description where it
/// has one, and the table of its fields.
pub open spec fn struct_section(record: StructView) -> Seq<char> {
    "## `"@ + record.name + "`\n\n"@ + (if record.description.len() > 0 {
        record.description + "\n\n"@
    } else {
        Seq::empty()
    }) + "| Field | Type | Description |\n"@ + "|-------|------|-------------|\n"@ + in_a_row(
        record.fields,
        |field: (Seq<char>, Seq<char>, Seq<char>)| field_row(field),
    ) + "\n"@
}

/// The records as plain data.
pub open spec fn views_of<T: View>(items: Seq<T>) -> Seq<T::V> {
    Seq::new(items.len(), |i: int| items[i]@)
}

/// Where the record of the struct with the given name stands. A later record
/// replaces an earlier one of the same name.
pub open spec fn last_named(structs: Seq<StructView>, name: Seq<char>) -> Option<int>
    decreases structs.len(),
{
    if structs.len() == 0 {
        None
    } else if structs.last().name == name {
        Some(structs.len() - 1)
    } else {
        last_named(structs.drop_last(), name)
    }
}

/// `last_named` is the greatest index whose record has the name.
pub proof fn lemma_last_named(structs: Seq<StructView>, name: Seq<char>)
    ensures
        match last_named(structs, name) {
            Some(at) => {
                &&& 0 <= at < structs.len()
                &&& structs[at].name == name
                &&& forall|j: int| at < j < structs.len() ==> structs[j].name != name
            },
            None => forall|j: int| 0 <= j < structs.len() ==> structs[j].name != name,
        },
    decreases structs.len(),
{
    if structs.len() > 0 && structs.last().name != name {
        let front = structs.drop_last();
        lemma_last_named(front, name);
        assert forall|j: int| 0 <= j < front.len() implies front[j] == structs[j] by {}
    }
}

/// The names used so far and one more type: its name, without what follows
/// a `<`, is added where a struct of that name is known and not yet used.
pub open spec fn with_mention(
    used: Seq<Seq<char>>,
    ty: Option<Seq<char>>,
    structs: Seq<StructView>,
) -> Seq<Seq<char>> {
    match ty {
        Some(t) => {
            let name = before_mark(t, '<');
            if last_named(structs, name) is Some && !used.contains(name) {
                used.push(name)
            } else {
                used
            }
        },
        None => used,
    }
}

/// The names of the structs that the commands mention, each once, in the
/// order in which they are first mentioned: for each command its argument,
/// then its result.
pub open spec fn used_structs(list: Seq<CommandView>, structs: Seq<StructView>) -> Seq<
    Seq<char>,
>
    decreases list.len(),
{
    if list.len() == 0 {
        Seq::empty()
    } else {
        let before = used_structs(list.drop_last(), structs);
        with_mention(with_mention(before, list.last().args, structs), list.last().ret, structs)
    }
}

/// The section of the struct of the given name; nothing where no struct has
/// the name.
pub open spec fn section_of(structs: Seq<StructView>, name: Seq<char>) -> Seq<char> {
    match last_named(structs, name) {
        Some(at) => struct_section(structs[at]),
        None => Seq::empty(),
    }
}

/// The part of a page on the structs that its commands use; nothing where
/// they use none.
pub open spec fn reference(used: Seq<Seq<char>>, structs: Seq<StructView>) -> Seq<char> {
    if used.len() == 0 {
        Seq::empty()
    } else {
        "\n# Struct Reference\n\n"@ + in_a_row(
            used,
            |name: Seq<char>| section_of(structs, name),
        )
    }
}

/// The text of a page: the title, the table of the commands, their
/// sections, and the structs they use.
pub open spec fn page_text(
    title: Seq<char>,
    list: Seq<CommandView>,
    structs: Seq<StructView>,
) -> Seq<char> {
    "# "@ + title + " Commands\n\n"@ + "| Command | Args | Return | Description |\n"@
        + "|---------|------|--------|-------------|\n"@ + in_a_row(
        list,
        |command: CommandView| index_row(command),
    ) + in_a_row(list, |command: CommandView| detail_section(command)) + reference(
        used_structs(list, structs),
        structs,
    )
}

/// The list with one more command, put behind the last command whose name
/// stands at or before its own. Commands of the same name stay in the order
/// in which they came.
pub open spec fn placed(sorted: Seq<CommandView>, command: CommandView) -> Seq<CommandView>
    decreases sorted.len(),
{
    if sorted.len() == 0 || at_or_before(sorted.last().name, command.name) {
        sorted.push(command)
    } else {
        placed(sorted.drop_last(), command).push(sorted.last())
    }
}

/// The commands sorted by name, in the order of texts; commands of the same
/// name in the order in which they stand in the list.
pub open spec fn sorted_by_name(list: Seq<CommandView>) -> Seq<CommandView>
    decreases list.len(),
{
    if list.len() == 0 {
        Seq::empty()
    } else {
        placed(sorted_by_name(list.drop_last()), list.last())
    }
}

/// True when the names of the commands never go down along the list.
pub open spec fn in_order(list: Seq<CommandView>) -> bool {
    forall|i: int, j: int|
        0 <= i < j < list.len() ==> at_or_before(#[trigger] list[i].name, #[trigger] list[j].name)
}

/// `placed` puts the command at the place behind which every name stands
/// after its own, and before which the nearest name stands at or before it.
pub proof fn lemma_placed_at(sorted: Seq<CommandView>, command: CommandView, place: int)
    requires
        0 <= place <= sorted.len(),
        forall|j: int|
            place <= j < sorted.len() ==> !at_or_before(#[trigger] sorted[j].name, command.name),
        place > 0 ==> at_or_before(sorted[place - 1].name, command.name),
    ensures
        placed(sorted, command) == sorted.insert(place, command),
    decreases sorted.len() - place,
{
    if place == sorted.len() {
        assert(sorted.insert(place, command) =~= sorted.push(command));
    } else {
        let front = sorted.drop_last();
        assert(!at_or_before(sorted[sorted.len() - 1].name, command.name));
        assert forall|j: int| place <= j < front.len() implies !at_or_before(
            #[trigger] front[j].name,
            command.name,
        ) by {
            assert(front[j] == sorted[j]);
        }
        lemma_placed_at(front, command, place);
        assert(front.insert(place, command).push(sorted.last()) =~= sorted.insert(
            place,
            command,
        ));
    }
}

/// Where `placed` puts the command.
pub open spec fn place_of(sorted: Seq<CommandView>, command: CommandView) -> int
    decreases sorted.len(),
{
    if sorted.len() == 0 || at_or_before(sorted.last().name, command.name) {
        sorted.len() as int
    } else {
        place_of(sorted.drop_last(), command)
    }
}

/// `place_of` meets what `lemma_placed_at` asks of a place.
pub proof fn lemma_place_of(sorted: Seq<CommandView>, command: CommandView)
    ensures
        0 <= place_of(sorted, command) <= sorted.len(),
        forall|j: int|
            place_of(sorted, command) <= j < sorted.len() ==> !at_or_before(
                #[trigger] sorted[j].name,
                command.name,
            ),
        place_of(sorted, command) > 0 ==> at_or_before(
            sorted[place_of(sorted, command) - 1].name,
            command.name,
        ),
        placed(sorted, command) == sorted.insert(place_of(sorted, command), command),
    decreases sorted.len(),
{
    if !(sorted.len() == 0 || at_or_before(sorted.last().name, command.name)) {
        let front = sorted.drop_last();
        lemma_place_of(front, command);
        assert forall|j: int| place_of(sorted, command) <= j < sorted.len() implies !at_or_before(
            #[trigger] sorted[j].name,
            command.name,
        ) by {
            if j < front.len() {
                assert(front[j] == sorted[j]);
            }
        }
        if place_of(sorted, command) > 0 {
            assert(front[place_of(sorted, command) - 1] == sorted[place_of(sorted, command) - 1]);
        }
    }
    lemma_placed_at(sorted, command, place_of(sorted, command));
}

/// Placing a command into a list in order gives a list in order, with the
/// same commands and the new one.
pub proof fn lemma_placed_keeps_order(sorted: Seq<CommandView>, command: CommandView)
    requires
        in_order(sorted),
    ensures
        in_order(placed(sorted, command)),
        placed(sorted, command).to_multiset() == sorted.to_multiset().insert(command),
{
    let place = place_of(sorted, command);
    let longer = sorted.insert(place, command);
    lemma_place_of(sorted, command);
    to_multiset_insert(sorted, place, command);
    assert forall|i: int, j: int| 0 <= i < j < longer.len() implies at_or_before(
        #[trigger] longer[i].name,
        #[trigger] longer[j].name,
    ) by {
        if j < place {
            assert(longer[i] == sorted[i] && longer[j] == sorted[j]);
        } else if j == place {
            assert(longer[i] == sorted[i]);
            assert(longer[j] == command);
            if i < place - 1 {
                lemma_order_is_transitive(
                    encode_utf8(sorted[i].name),
                    encode_utf8(sorted[place - 1].name),
                    encode_utf8(command.name),
                );
            }
        } else if i < place {
            assert(longer[i] == sorted[i] && longer[j] == sorted[j - 1]);
        } else if i == place {
            assert(longer[i] == command);
            assert(longer[j] == sorted[j - 1]);
            lemma_order_is_total(encode_utf8(sorted[j - 1].name), encode_utf8(command.name));
        } else {
            assert(longer[i] == sorted[i - 1] && longer[j] == sorted[j - 1]);
        }
    }
}

/// Sorting gives the same commands, with names that never go down.
pub proof fn lemma_sorted_by_name(list: Seq<CommandView>)
    ensures
        in_order(sorted_by_name(list)),
        sorted_by_name(list).to_multiset() == list.to_multiset(),
        sorted_by_name(list).len() == list.len(),
    decreases list.len(),
{
    broadcast use vstd::seq_lib::group_to_multiset_ensures;

    if list.len() > 0 {
        let front = list.drop_last();
        lemma_sorted_by_name(front);
        lemma_placed_keeps_order(sorted_by_name(front), list.last());
        assert(front.push(list.last()) =~= list);
        lemma_place_of(sorted_by_name(front), list.last());
    } else {
        assert(list =~= Seq::<CommandView>::empty());
    }
}

/// The commands of a service, in the order in which they stand in the list.
pub open spec fn of_service(commands: Seq<CommandView>, service: Seq<char>) -> Seq<CommandView>
    decreases commands.len(),
{
    if commands.len() == 0 {
        Seq::empty()
    } else {
        let before = of_service(commands.drop_last(), service);
        if commands.last().service == service {
            before.push(commands.last())
        } else {
            before
        }
    }
}

/// The services of the commands, each once, in the order in which they first
/// occur.
pub open spec fn services_of(commands: Seq<CommandView>) -> Seq<Seq<char>>
    decreases commands.len(),
{
    if commands.len() == 0 {
        Seq::empty()
    } else {
        let before = services_of(commands.drop_last());
        if before.contains(commands.last().service) {
            before
        } else {
            before.push(commands.last().service)
        }
    }
}

/// The name of the file of a service: `free_commands.md` for the commands
/// that belong to none, marked by the service `_free_`; else the name of the
/// service in lower case, with `.md`.
pub open spec fn file_name_of(service: Seq<char>) -> Seq<char> {
    if service == "_free_"@ {
        "free_commands.md"@
    } else {
        lowercase_of(service) + ".md"@
    }
}

/// The title of the page of a service.
pub open spec fn title_of(service: Seq<char>) -> Seq<char> {
    if service == "_free_"@ {
        "Free Commands"@
    } else {
        service
    }
}

/// The page of a service: its commands, sorted by name.
pub open spec fn page_of(
    service: Seq<char>,
    commands: Seq<CommandView>,
    structs: Seq<StructView>,
) -> PageView {
    PageView {
        file_name: file_name_of(service),
        text: page_text(title_of(service), sorted_by_name(of_service(commands, service)), structs),
    }
}

/// The pages of all services, in the order in which the services first
/// occur.
pub open spec fn pages_of(commands: Seq<CommandView>, structs: Seq<StructView>) -> Seq<PageView> {
    Seq::new(
        services_of(commands).len(),
        |i: int| page_of(services_of(commands)[i], commands, structs),
    )
}

/// The description that the lines of a comment make: each line without the
/// white space around it, with one space between two lines.
pub open spec fn description_of(lines: Seq<Seq<char>>) -> Seq<char>
    decreases lines.len(),
{
    if lines.len() == 0 {
        Seq::empty()
    } else if lines.len() == 1 {
        stripped_of(lines[0])
    } else {
        description_of(lines.drop_last()) + " "@ + stripped_of(lines.last())
    }
}

fn shown<'a>(ty: &'a Option<String>, none: &'a str) -> (text: &'a str)
    ensures
        text@ == match text_of(*ty) {
            Some(t) => if t == "_none_"@ {
                none@
            } else {
                t
            },
            None => none@,
        },
{
    match ty {
        Some(t) => if same_text(t.as_str(), "_none_") {
            none
        } else {
            t.as_str()
        },
        None => none,
    }
}

fn push_index_row(text: &mut String, command: &CommandDoc)
    ensures
        final(text)@ == old(text)@ + index_row(command@),
{
    let anchor = lowercase(command.name.as_str());
    text.append("| [");
    text.append(command.name.as_str());
    text.append("](#");
    text.append(anchor.as_str());
    text.append(") | `");
    text.append(shown(&command.args, "()"));
    text.append("` | `");
    text.append(shown(&command.ret, "()"));
    text.append("` | ");
    text.append(command.description.as_str());
    text.append(" |\n");
}

fn push_detail_section(text: &mut String, command: &CommandDoc)
    ensures
        final(text)@ == old(text)@ + detail_section(command@),
{
    proof {
        reveal_strlit("");
    }
    text.append("\n## ");
    text.append(command.name.as_str());
    text.append("\n\n");
    text.append("**Signature:** `fn ");
    text.append(command.name.as_str());
    text.append("(");
    text.append(shown(&command.args, ""));
    text.append(") -> ");
    text.append(
        match &command.ret {
            Some(t) => t.as_str(),
            None => "()",
        },
    );
    text.append("`\n\n");
    if !command.description.as_str().is_empty() {
        text.append("**Description:**  \n");
        text.append(command.description.as_str());
        text.append("\n\n");
    }
}

fn push_struct_section(text: &mut String, record: &StructDoc)
    ensures
        final(text)@ == old(text)@ + struct_section(record@),
{
    let ghost each = |field: (Seq<char>, Seq<char>, Seq<char>)| field_row(field);
    text.append("## `");
    text.append(record.name.as_str());
    text.append("`\n\n");
    if !record.description.as_str().is_empty() {
        text.append(record.description.as_str());
        text.append("\n\n");
    }
    text.append("| Field | Type | Description |\n");
    text.append("|-------|------|-------------|\n");
    let ghost head = text@;
    let mut at: usize = 0;
    while at < record.fields.len()
        invariant
            at <= record.fields@.len(),
            text@ == head + in_a_row(record@.fields.take(at as int), each),
            forall|field: (Seq<char>, Seq<char>, Seq<char>)|
                #[trigger] each(field) == field_row(field),
        decreases record.fields@.len() - at,
    {
        proof {
            lemma_in_a_row_step(record@.fields, each, at as int);
        }
        let field = &record.fields[at];
        text.append("| `");
        text.append(field.0.as_str());
        text.append("` | `");
        text.append(field.1.as_str());
        text.append("` | ");
        text.append(field.2.as_str());
        text.append(" |\n");
        at = at + 1;
    }
    assert(record@.fields.take(at as int) =~= record@.fields);
    text.append("\n");
}

/// Finds the record of the struct with the given name.
pub fn find_struct<'a>(structs: &'a Vec<StructDoc>, name: &str) -> (found: Option<&'a StructDoc>)
    ensures
        match last_named(views_of(structs@), name@) {
            Some(at) => found == Some(&structs@[at]),
            None => found is None,
        },
{
    let mut at: usize = structs.len();
    while at > 0
        invariant
            at <= structs@.len(),
            forall|j: int| at <= j < structs@.len() ==> views_of(structs@)[j].name != name@,
        decreases at,
    {
        at = at - 1;
        if same_text(structs[at].name.as_str(), name) {
            proof {
                lemma_last_named(views_of(structs@), name@);
                assert(views_of(structs@)[at as int].name == name@);
            }
            return Some(&structs[at]);
        }
    }
    proof {
        lemma_last_named(views_of(structs@), name@);
    }
    None
}

fn holds(used: &Vec<&str>, name: &str) -> (held: bool)
    ensures
        held == views_of(used@).contains(name@),
{
    let mut at: usize = 0;
    while at < used.len()
        invariant
            at <= used@.len(),
            forall|j: int| 0 <= j < at ==> views_of(used@)[j] != name@,
        decreases used@.len() - at,
    {
        if same_text(used[at], name) {
            assert(views_of(used@)[at as int] == name@);
            return true;
        }
        at = at + 1;
    }
    false
}

fn mention<'a>(used: &mut Vec<&'a str>, ty: &'a Option<String>, structs: &Vec<StructDoc>)
    ensures
        views_of(final(used)@) == with_mention(
            views_of(old(used)@),
            text_of(*ty),
            views_of(structs@),
        ),
{
    match ty {
        Some(t) => {
            let name = cut_before(t.as_str(), '<');
            if find_struct(structs, name).is_some() && !holds(used, name) {
                used.push(name);
            }
        },
        None => {},
    }
}

/// Lists the structs that the commands mention.
pub fn structs_used<'a>(list: &Vec<&'a CommandDoc>, structs: &Vec<StructDoc>) -> (used: Vec<
    &'a str,
>)
    ensures
        views_of(used@) == used_structs(views_of(list@), views_of(structs@)),
{
    let mut used: Vec<&'a str> = Vec::new();
    let mut at: usize = 0;
    while at < list.len()
        invariant
            at <= list@.len(),
            views_of(used@) == used_structs(views_of(list@).take(at as int), views_of(structs@)),
        decreases list@.len() - at,
    {
        let command: &'a CommandDoc = list[at];
        assert(views_of(list@).take(at + 1).drop_last() =~= views_of(list@).take(at as int));
        mention(&mut used, &command.args, structs);
        mention(&mut used, &command.ret, structs);
        at = at + 1;
    }
    assert(views_of(list@).take(at as int) =~= views_of(list@));
    used
}

fn push_reference(text: &mut String, used: &Vec<&str>, structs: &Vec<StructDoc>)
    ensures
        final(text)@ == old(text)@ + reference(views_of(used@), views_of(structs@)),
{
    let ghost each = |name: Seq<char>| section_of(views_of(structs@), name);
    if used.len() == 0 {
        return ;
    }
    text.append("\n# Struct Reference\n\n");
    let ghost head = text@;
    let mut at: usize = 0;
    while at < used.len()
        invariant
            at <= used@.len(),
            text@ == head + in_a_row(views_of(used@).take(at as int), each),
            forall|name: Seq<char>| #[trigger] each(name) == section_of(views_of(structs@), name),
        decreases used@.len() - at,
    {
        proof {
            lemma_in_a_row_step(views_of(used@), each, at as int);
        }
        let name = used[at];
        proof {
            lemma_last_named(views_of(structs@), name@);
        }
        match find_struct(structs, name) {
            Some(record) => {
                push_struct_section(text, record);
            },
            None => {},
        }
        at = at + 1;
    }
    assert(views_of(used@).take(at as int) =~= views_of(used@));
}

/// Writes the text of a page for the commands in the order given.
pub fn render_text(title: &str, list: &Vec<&CommandDoc>, structs: &Vec<StructDoc>) -> (text:
    String)
    ensures
        text@ == page_text(title@, views_of(list@), views_of(structs@)),
{
    let ghost rows = |command: CommandView| index_row(command);
    let ghost sections = |command: CommandView| detail_section(command);
    let mut text = String::from_str("# ");
    text.append(title);
    text.append(" Commands\n\n");
    text.append("| Command | Args | Return | Description |\n");
    text.append("|---------|------|--------|-------------|\n");
    let ghost head = text@;
    let mut at: usize = 0;
    while at < list.len()
        invariant
            at <= list@.len(),
            text@ == head + in_a_row(views_of(list@).take(at as int), rows),
            forall|command: CommandView| #[trigger] rows(command) == index_row(command),
        decreases list@.len() - at,
    {
        proof {
            lemma_in_a_row_step(views_of(list@), rows, at as int);
        }
        push_index_row(&mut text, list[at]);
        at = at + 1;
    }
    assert(views_of(list@).take(at as int) =~= views_of(list@));
    let ghost table = text@;
    let mut at: usize = 0;
    while at < list.len()
        invariant
            at <= list@.len(),
            text@ == table + in_a_row(views_of(list@).take(at as int), sections),
            forall|command: CommandView| #[trigger] sections(command) == detail_section(command),
        decreases list@.len() - at,
    {
        proof {
            lemma_in_a_row_step(views_of(list@), sections, at as int);
        }
        push_detail_section(&mut text, list[at]);
        at = at + 1;
    }
    let used = structs_used(list, structs);
    push_reference(&mut text, &used, structs);
    text
}

/// Sorts commands by name. Commands of the same name keep their order.
pub fn sort_by_name<'a>(list: &Vec<&'a CommandDoc>) -> (sorted: Vec<&'a CommandDoc>)
    ensures
        views_of(sorted@) == sorted_by_name(views_of(list@)),
{
    let mut sorted: Vec<&'a CommandDoc> = Vec::new();
    let mut at: usize = 0;
    while at < list.len()
        invariant
            at <= list@.len(),
            sorted@.len() == at,
            views_of(sorted@) == sorted_by_name(views_of(list@).take(at as int)),
        decreases list@.len() - at,
    {
        let command: &'a CommandDoc = list[at];
        let ghost before = views_of(sorted@);
        let mut place: usize = sorted.len();
        while place > 0 && !stands_at_or_before(
            sorted[place - 1].name.as_str(),
            command.name.as_str(),
        )
            invariant
                place <= sorted@.len(),
                before == views_of(sorted@),
                forall|j: int|
                    place <= j < before.len() ==> !at_or_before(
                        #[trigger] before[j].name,
                        command@.name,
                    ),
            decreases place,
        {
            place = place - 1;
        }
        proof {
            lemma_placed_at(before, command@, place as int);
            assert(views_of(list@).take(at + 1).drop_last() =~= views_of(list@).take(at as int));
        }
        sorted.insert(place, command);
        at = at + 1;
    }
    assert(views_of(list@).take(at as int) =~= views_of(list@));
    sorted
}

/// Picks the commands of a service.
pub fn commands_of<'a>(commands: &'a Vec<CommandDoc>, service: &str) -> (list: Vec<
    &'a CommandDoc,
>)
    ensures
        views_of(list@) == of_service(views_of(commands@), service@),
{
    let mut list: Vec<&'a CommandDoc> = Vec::new();
    let mut at: usize = 0;
    while at < commands.len()
        invariant
            at <= commands@.len(),
            views_of(list@) == of_service(views_of(commands@).take(at as int), service@),
        decreases commands@.len() - at,
    {
        let command = &commands[at];
        assert(views_of(commands@).take(at + 1).drop_last() =~= views_of(commands@).take(
            at as int,
        ));
        if same_text(command.service.as_str(), service) {
            list.push(command);
        }
        at = at + 1;
    }
    assert(views_of(commands@).take(at as int) =~= views_of(commands@));
    list
}

/// Lists the services of the commands.
pub fn services<'a>(commands: &'a Vec<CommandDoc>) -> (names: Vec<&'a str>)
    ensures
        views_of(names@) == services_of(views_of(commands@)),
{
    let mut names: Vec<&'a str> = Vec::new();
    let mut at: usize = 0;
    while at < commands.len()
        invariant
            at <= commands@.len(),
            views_of(names@) == services_of(views_of(commands@).take(at as int)),
        decreases commands@.len() - at,
    {
        let service = commands[at].service.as_str();
        assert(views_of(commands@).take(at + 1).drop_last() =~= views_of(commands@).take(
            at as int,
        ));
        if !holds(&names, service) {
            names.push(service);
        }
        at = at + 1;
    }
    assert(views_of(commands@).take(at as int) =~= views_of(commands@));
    names
}

/// Writes the page of a service.
pub fn render_page(service: &str, commands: &Vec<CommandDoc>, structs: &Vec<StructDoc>) -> (page:
    Page)
    ensures
        page@ == page_of(service@, views_of(commands@), views_of(structs@)),
{
    let list = commands_of(commands, service);
    let sorted = sort_by_name(&list);
    if same_text(service, "_free_") {
        Page {
            file_name: String::from_str("free_commands.md"),
            text: render_text("Free Commands", &sorted, structs),
        }
    } else {
        let mut file_name = lowercase(service);
        file_name.append(".md");
        Page { file_name, text: render_text(service, &sorted, structs) }
    }
}

/// Writes the pages of all services.
pub fn render_pages(commands: &Vec<CommandDoc>, structs: &Vec<StructDoc>) -> (pages: Vec<Page>)
    ensures
        views_of(pages@) == pages_of(views_of(commands@), views_of(structs@)),
{
    let names = services(commands);
    let mut pages: Vec<Page> = Vec::new();
    let mut at: usize = 0;
    while at < names.len()
        invariant
            at <= names@.len(),
            views_of(names@) == services_of(views_of(commands@)),
            pages@.len() == at,
            forall|i: int|
                0 <= i < at ==> (#[trigger] pages@[i])@ == page_of(
                    services_of(views_of(commands@))[i],
                    views_of(commands@),
                    views_of(structs@),
                ),
        decreases names@.len() - at,
    {
        pages.push(render_page(names[at], commands, structs));
        at = at + 1;
    }
    pages
}

/// Makes the description out of the lines of a comment.
pub fn description(lines: &Vec<String>) -> (text: String)
    ensures
        text@ == description_of(views_of(lines@)),
{
    let mut text = String::new();
    let mut at: usize = 0;
    while at < lines.len()
        invariant
            at <= lines@.len(),
            text@ == description_of(views_of(lines@).take(at as int)),
        decreases lines@.len() - at,
    {
        assert(views_of(lines@).take(at + 1).drop_last() =~= views_of(lines@).take(at as int));
        if at > 0 {
            text.append(" ");
        }
        text.append(stripped(lines[at].as_str()));
        at = at + 1;
    }
    assert(views_of(lines@).take(at as int) =~= views_of(lines@));
    text
}

} // verus!
