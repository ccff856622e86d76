//! Keeps the list of things to do in a session.
use crate::ids;
use crate::ids::{fresh, PluginId, ToolId};
use crate::json;
use crate::json::{Json, ObjectBuilder};
use crate::model;
use crate::model::{Error, NoteContent, ToolDefinition, ToolInput, ToolOutput};
use crate::text;
use vstd::prelude::*;

verus! {

pub const DESCRIPTION: &'static str = "Replace the durable session todo list with the complete array supplied in `todos`; send the full desired state rather than a delta. Each item needs `content` and may use `pending`, `in_progress`, `completed`, or `cancelled` status plus a priority. The updated list is stored in the todo plugin namespace and a short count is returned.";

/// A thing to do.
#[derive(Clone, Debug, PartialEq, Eq)]
pub struct TodoItem {
    pub content: String,
    pub status: String,
    pub priority: String,
}

pub ghost struct TodoView {
    pub content: Seq<char>,
    pub status: Seq<char>,
    pub priority: Seq<char>,
}

impl View for TodoItem {
    type V = TodoView;

    open spec fn view(&self) -> TodoView {
        TodoView { content: self.content@, status: self.status@, priority: self.priority@ }
    }
}

pub open spec fn todo_views(items: Seq<TodoItem>) -> Seq<TodoView> {
    items.map_values(|t: TodoItem| t@)
}

pub open spec fn is_status(status: Seq<char>) -> bool {
    status == "pending"@ || status == "in_progress"@ || status == "completed"@ || status
        == "cancelled"@
}

/// Why a list is not taken over.
pub ghost enum Refusal {
    /// The request is wrong.
    Wrong(Seq<char>),
    /// An item has a status that does not exist.
    Status(Seq<char>),
}

pub open spec fn text_or(value: json::JsonView, key: Seq<char>, otherwise: Seq<char>) -> Seq<char> {
    match json::text_at(value, key) {
        Some(t) => t,
        None => otherwise,
    }
}

/// An item of a request.
pub open spec fn read_item(value: json::JsonView) -> Result<TodoView, Refusal> {
    if !(value is Object) {
        Err(Refusal::Wrong("todo item must be an object"@))
    } else {
        match json::text_at(value, "content"@) {
            None => Err(Refusal::Wrong("todo item requires content"@)),
            Some(content) => {
                let status = text_or(value, "status"@, "pending"@);
                if is_status(status) {
                    Ok(
                        TodoView {
                            content,
                            status,
                            priority: text_or(value, "priority"@, "medium"@),
                        },
                    )
                } else {
                    Err(Refusal::Status(status))
                }
            },
        }
    }
}

/// The items of a request, or what is wrong with the first bad one.
pub open spec fn read_items(values: Seq<json::JsonView>) -> Result<Seq<TodoView>, Refusal>
    decreases values.len(),
{
    if values.len() == 0 {
        Ok(Seq::empty())
    } else {
        match read_items(values.drop_last()) {
            Err(e) => Err(e),
            Ok(earlier) => match read_item(values.last()) {
                Err(e) => Err(e),
                Ok(item) => Ok(earlier.push(item)),
            },
        }
    }
}

proof fn lemma_read_items_err(values: Seq<json::JsonView>, n: int)
    requires
        0 <= n <= values.len(),
        read_items(values.take(n)) is Err,
    ensures
        read_items(values) == read_items(values.take(n)),
    decreases values.len() - n,
{
    if n < values.len() {
        assert(values.take(n + 1).drop_last() =~= values.take(n));
        lemma_read_items_err(values, n + 1);
    } else {
        assert(values.take(n) =~= values);
    }
}

/// Every item of a list that is taken over has one of the four states.
pub proof fn law_states_are_known(values: Seq<json::JsonView>, i: int)
    ensures
        read_items(values) matches Ok(items) ==> {
            &&& items.len() == values.len()
            &&& 0 <= i < items.len() ==> is_status(items[i].status)
        },
    decreases values.len(),
{
    if values.len() > 0 {
        law_states_are_known(values.drop_last(), i);
    }
}

/// The sign in front of an item.
pub open spec fn marker(status: Seq<char>) -> Seq<char> {
    if status == "completed"@ {
        "x"@
    } else if status == "cancelled"@ {
        "-"@
    } else if status == "in_progress"@ {
        ">"@
    } else {
        " "@
    }
}

/// The lines of the list.
pub open spec fn item_lines(items: Seq<TodoView>) -> Seq<Seq<char>> {
    items.map_values(|t: TodoView| "- ["@ + marker(t.status) + "] "@ + t.content)
}

/// The list as it is kept.
pub open spec fn stored(items: Seq<TodoView>) -> json::JsonView {
    json::JsonView::Array(items.map_values(|t: TodoView| stored_item(t)))
}

pub open spec fn stored_item(t: TodoView) -> json::JsonView {
    json::JsonView::Object(
        seq![
            ("content"@, json::JsonView::Text(t.content)),
            ("status"@, json::JsonView::Text(t.status)),
            ("priority"@, json::JsonView::Text(t.priority)),
        ],
    )
}

/// What a request leads to.
pub enum TodoUpdate {
    /// The list is taken over.
    Items(Vec<TodoItem>),
    /// It is not, for this reason.
    Refused(ToolOutput, NoteContent),
}

/// Keeps the list.
pub struct ToolTodo {
    pub id: ToolId,
}

impl Default for ToolTodo {
    fn default() -> (r: Self)
        ensures
            ids::is_random(r.id.0),
    {
        ToolTodo::new()
    }
}

enum Parsed {
    Item(TodoItem),
    Wrong(String),
    Status(String),
}

fn parse_item(value: &Json) -> (r: Parsed)
    ensures
        match r {
            Parsed::Item(t) => read_item(value@) == Ok::<TodoView, Refusal>(t@),
            Parsed::Wrong(m) => read_item(value@) == Err::<TodoView, Refusal>(Refusal::Wrong(m@)),
            Parsed::Status(s) => read_item(value@) == Err::<TodoView, Refusal>(Refusal::Status(s@)),
        },
{
    if !value.is_object() {
        return Parsed::Wrong(text::owned("todo item must be an object"));
    }
    let content = match value.get_str("content") {
        Some(c) => c,
        None => return Parsed::Wrong(text::owned("todo item requires content")),
    };
    let status = match value.get_str("status") {
        Some(s) => s,
        None => "pending",
    };
    let priority = match value.get_str("priority") {
        Some(p) => p,
        None => "medium",
    };
    if !(text::same_text(status, "pending") || text::same_text(status, "in_progress")
        || text::same_text(status, "completed") || text::same_text(status, "cancelled")) {
        return Parsed::Status(text::owned(status));
    }
    Parsed::Item(
        TodoItem {
            content: text::owned(content),
            status: text::owned(status),
            priority: text::owned(priority),
        },
    )
}

impl ToolTodo {
    pub fn new() -> (r: Self)
        ensures
            ids::is_random(r.id.0),
    {
        ToolTodo { id: ToolId(fresh()) }
    }

    pub fn name(&self) -> (r: &'static str)
        ensures
            r@ == "todo"@,
    {
        "todo"
    }

    /// Reads a request.
    pub fn read(&self, input: &Json) -> (r: model::Result<TodoUpdate>)
        ensures
            match json::items_of(json::field(input@, "todos"@)) {
                None => r is Err && r->Err_0@ == model::ErrorView::Tool("todo requires todos array"@),
                Some(values) => match read_items(values) {
                    Ok(items) => {
                        &&& r is Ok
                        &&& r->Ok_0 is Items
                        &&& todo_views(r->Ok_0->Items_0@) == items
                    },
                    Err(Refusal::Wrong(m)) => r is Err && r->Err_0@ == model::ErrorView::Tool(m),
                    Err(Refusal::Status(status)) => {
                        &&& r is Ok
                        &&& r->Ok_0 is Refused
                        &&& r->Ok_0->Refused_0@ == model::OutputView::Failure(
                            "invalid todo status: "@ + status,
                        )
                        &&& r->Ok_0->Refused_1@ == model::NoteView::Alert(
                            "invalid todo status: "@ + status,
                        )
                    },
                },
            },
    {
        let values = match input.get_array("todos") {
            Some(v) => v,
            None => return Err(Error::Tool(text::owned("todo requires todos array"))),
        };
        let ghost all = json::json_views(values@);
        let mut items: Vec<TodoItem> = Vec::new();
        let mut i: usize = 0;
        proof {
            assert(all.take(0) =~= Seq::empty());
            assert(todo_views(items@) =~= Seq::empty());
        }
        while i < values.len()
            invariant
                i <= values@.len(),
                all == json::json_views(values@),
                json::items_of(json::field(input@, "todos"@)) == Some(all),
                read_items(all.take(i as int)) is Ok,
                todo_views(items@) == read_items(all.take(i as int))->Ok_0,
            decreases values@.len() - i,
        {
            let ghost before = todo_views(items@);
            proof {
                assert(all.take(i + 1).drop_last() =~= all.take(i as int));
                assert(all.take(i + 1).last() == values@[i as int]@);
                if read_items(all.take(i + 1)) is Err {
                    lemma_read_items_err(all, i + 1);
                }
            }
            match parse_item(&values[i]) {
                Parsed::Item(item) => {
                    let ghost shown = item@;
                    items.push(item);
                    proof {
                        assert(todo_views(items@) =~= before.push(shown));
                    }
                },
                Parsed::Wrong(m) => return Err(Error::Tool(m)),
                Parsed::Status(s) => {
                    let message = text::cat2("invalid todo status: ", s.as_str());
                    let note = text::owned(message.as_str());
                    return Ok(
                        TodoUpdate::Refused(
                            ToolOutput::Failure { content: message },
                            NoteContent::Alert { content: note },
                        ),
                    );
                },
            }
            i += 1;
        }
        proof {
            assert(all.take(i as int) =~= all);
        }
        Ok(TodoUpdate::Items(items))
    }

    /// The list as it is kept.
    pub fn store(&self, items: &[TodoItem]) -> (r: Json)
        ensures
            r@ == stored(todo_views(items@)),
    {
        let ghost all = stored(todo_views(items@))->Array_0;
        let mut out: Vec<Json> = Vec::new();
        let mut i: usize = 0;
        proof {
            assert(json::json_views(out@) =~= all.take(0));
        }
        while i < items.len()
            invariant
                i <= items@.len(),
                all == stored(todo_views(items@))->Array_0,
                json::json_views(out@) == all.take(i as int),
            decreases items@.len() - i,
        {
            let ghost before = json::json_views(out@);
            let fields = ObjectBuilder::new().with(
                "content",
                Json::text(items[i].content.as_str()),
            ).with("status", Json::text(items[i].status.as_str())).with(
                "priority",
                Json::text(items[i].priority.as_str()),
            );
            proof {
                assert(fields@ =~= stored_item(items@[i as int]@)->Object_0);
            }
            let value = fields.done();
            let ghost shown = value@;
            out.push(value);
            proof {
                assert(json::json_views(out@) =~= before.push(shown));
                assert(all.take(i + 1) =~= all.take(i as int).push(shown));
            }
            i += 1;
        }
        proof {
            assert(all.take(i as int) =~= all);
        }
        json::array(out)
    }

    /// The answer once the list is kept.
    pub fn conclude(&self, items: &[TodoItem]) -> (r: (ToolOutput, NoteContent))
        ensures
            r.0@ == model::OutputView::Success(
                "Updated todo list ("@ + text::decimal(items@.len()) + " items)"@,
            ),
            r.1@ == model::NoteView::Info(
                "Todo list ("@ + text::decimal(items@.len()) + " items)\n\n"@ + text::joined(
                    item_lines(todo_views(items@)),
                    "\n"@,
                ),
            ),
    {
        let ghost all = item_lines(todo_views(items@));
        let mut lines = text::no_texts();
        let mut i: usize = 0;
        proof {
            assert(all.take(0) =~= Seq::empty());
        }
        while i < items.len()
            invariant
                i <= items@.len(),
                all == item_lines(todo_views(items@)),
                text::texts(lines@) == all.take(i as int),
            decreases items@.len() - i,
        {
            let status = items[i].status.as_str();
            let sign = if text::same_text(status, "completed") {
                "x"
            } else if text::same_text(status, "cancelled") {
                "-"
            } else if text::same_text(status, "in_progress") {
                ">"
            } else {
                " "
            };
            let line = text::cat4("- [", sign, "] ", items[i].content.as_str());
            proof {
                assert(all.take(i + 1) =~= all.take(i as int).push(line@));
            }
            text::push_string(&mut lines, line);
            i += 1;
        }
        proof {
            assert(all.take(i as int) =~= all);
        }
        let count = text::usize_text(items.len());
        (
            ToolOutput::Success {
                content: text::cat3("Updated todo list (", count.as_str(), " items)"),
            },
            NoteContent::Info {
                content: text::cat4(
                    "Todo list (",
                    count.as_str(),
                    " items)\n\n",
                    text::join(lines.as_slice(), "\n").as_str(),
                ),
            },
        )
    }
}

/// The plugin that offers the tool.
pub struct ToolTodoPlugin {
    pub id: PluginId,
    pub tool: ToolTodo,
}

impl ToolTodoPlugin {
    pub fn new() -> (r: Self)
        ensures
            ids::is_random(r.id.0),
            ids::is_random(r.tool.id.0),
    {
        ToolTodoPlugin { id: PluginId(fresh()), tool: ToolTodo::new() }
    }

    pub fn name(&self) -> (r: &'static str)
        ensures
            r@ == "tool_todo"@,
    {
        "tool_todo"
    }
}

impl ToolTodo {
    /// What the model gave the tool, which takes an object and no text.
    pub fn input<'a>(&self, input: &'a ToolInput) -> (r: model::Result<&'a Json>)
        ensures
            match *input {
                ToolInput::Json(value) => r is Ok && *r->Ok_0 == value,
                ToolInput::Text(_) => r is Err && r->Err_0@ == model::ErrorView::Tool(
                    "todo input must be an object"@,
                ),
            },
    {
        proof {
            reveal_strlit("todo");
            reveal_strlit(" input must be an object");
            reveal_strlit("todo input must be an object");
            assert("todo"@ + " input must be an object"@ =~= "todo input must be an object"@);
        }
        input.object("todo")
    }

    /// How the tool is described to a provider; `schema` is that of its input.
    pub fn definition(&self, schema: Json) -> (r: ToolDefinition)
        ensures
            r.name@ == "todo"@,
            r.description@ == DESCRIPTION@,
            r.schema == schema,
            r.freeform is None,
    {
        ToolDefinition::new("todo", DESCRIPTION, schema)
    }
}

/// What is stored of a list is read back as the list, in its order.
pub proof fn law_lists_are_read_back(items: Seq<TodoView>)
    requires
        forall|i: int| 0 <= i < items.len() ==> is_status((#[trigger] items[i]).status),
    ensures
        stored(items) is Array,
        read_items(stored(items)->Array_0) == Ok::<Seq<TodoView>, Refusal>(items),
    decreases items.len(),
{
    let values = stored(items)->Array_0;
    if items.len() > 0 {
        let front = items.drop_last();
        let last = items.last();
        assert forall|i: int| 0 <= i < front.len() implies is_status(
            (#[trigger] front[i]).status,
        ) by {
            assert(front[i] == items[i]);
        }
        law_lists_are_read_back(front);
        assert(values.drop_last() =~= stored(front)->Array_0);
        assert(is_status(items[items.len() - 1].status));
        reveal_strlit("content");
        reveal_strlit("status");
        reveal_strlit("priority");
        assert("content"@.len() == 7 && "status"@.len() == 6 && "priority"@.len() == 8);
        reveal_with_fuel(json::field_from, 4);
        assert(values.last() == stored_item(last));
        assert(read_item(stored_item(last)) == Ok::<TodoView, Refusal>(last));
        assert(front.push(last) =~= items);
    } else {
        assert(values =~= Seq::empty());
        assert(items =~= Seq::empty());
    }
}

/// Every item has a line of its own, which shows how far it is and what it says.
pub proof fn law_items_show_how_far_they_are(items: Seq<TodoView>, i: int)
    requires
        0 <= i < items.len(),
    ensures
        item_lines(items).len() == items.len(),
        items[i].status == "completed"@ ==> item_lines(items)[i] == "- [x] "@ + items[i].content,
        items[i].status == "cancelled"@ ==> item_lines(items)[i] == "- [-] "@ + items[i].content,
        items[i].status == "in_progress"@ ==> item_lines(items)[i] == "- [>] "@ + items[i].content,
        items[i].status == "pending"@ ==> item_lines(items)[i] == "- [ ] "@ + items[i].content,
{
    reveal_strlit("completed");
    reveal_strlit("cancelled");
    reveal_strlit("in_progress");
    reveal_strlit("pending");
    assert("completed"@[1] == 'o' && "cancelled"@[1] == 'a' && "in_progress"@.len() == 11
        && "pending"@.len() == 7 && "cancelled"@.len() == 9 && "completed"@.len() == 9);
    reveal_strlit("- [");
    reveal_strlit("] ");
    reveal_strlit("x");
    reveal_strlit("-");
    reveal_strlit(">");
    reveal_strlit(" ");
    reveal_strlit("- [x] ");
    reveal_strlit("- [-] ");
    reveal_strlit("- [>] ");
    reveal_strlit("- [ ] ");
    let c = items[i].content;
    assert("- ["@ + "x"@ + "] "@ + c =~= "- [x] "@ + c);
    assert("- ["@ + "-"@ + "] "@ + c =~= "- [-] "@ + c);
    assert("- ["@ + ">"@ + "] "@ + c =~= "- [>] "@ + c);
    assert("- ["@ + " "@ + "] "@ + c =~= "- [ ] "@ + c);
}

/// An item needs a content. Without a state it is still to do, and a state that is not
/// known is refused by its name.
pub proof fn law_items_are_read_as_meant(
    value: json::JsonView,
    content: Seq<char>,
    status: Seq<char>,
)
    requires
        value is Object,
    ensures
        json::text_at(value, "content"@) is None ==> read_item(value) is Err,
        json::text_at(value, "content"@) == Some(content) && json::text_at(value, "status"@) is None
            ==> (read_item(value) matches Ok(t) && t.content == content && t.status == "pending"@),
        json::text_at(value, "content"@) == Some(content) && json::text_at(value, "status"@)
            == Some(status) && is_status(status) ==> (read_item(value) matches Ok(t) && t.content
            == content && t.status == status),
        json::text_at(value, "content"@) == Some(content) && json::text_at(value, "status"@)
            == Some(status) && !is_status(status) ==> read_item(value) == Err::<TodoView, Refusal>(
            Refusal::Status(status),
        ),
        is_status(status) <==> status == "pending"@ || status == "in_progress"@ || status
            == "completed"@ || status == "cancelled"@,
{
}

} // verus!
