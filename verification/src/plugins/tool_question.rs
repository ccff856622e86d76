//! Asks the user a question, and ends the turn.
use crate::ids;
use crate::ids::{fresh, PluginId, ToolId};
use crate::json;
use crate::json::{Json, ObjectBuilder};
use crate::model;
use crate::model::{Error, NoteContent, ToolDefinition, ToolInput, ToolOutput};
use crate::text;
use vstd::prelude::*;

verus! {

pub const DESCRIPTION: &'static str = "Ask the user for information that the agent cannot safely infer. Provide the question and optional string choices. The question is stored as pending UI/plugin state and this tool returns Stop, ending the current provider turn without cancellation; the user's next response starts a normal new turn.";

/// A question with what can be chosen.
#[derive(Clone, Debug, PartialEq, Eq)]
pub struct Question {
    pub question: String,
    pub choices: Vec<String>,
}

/// What a request leads to.
pub enum Asked {
    /// The question is put.
    Question(Question),
    /// It is not, for this reason.
    Refused(ToolOutput, NoteContent),
}

/// What can be chosen, where all of it is text.
pub open spec fn choice_texts(values: Seq<json::JsonView>) -> Option<Seq<Seq<char>>>
    decreases values.len(),
{
    if values.len() == 0 {
        Some(Seq::empty())
    } else {
        match (choice_texts(values.drop_last()), values.last()) {
            (Some(earlier), json::JsonView::Text(t)) => Some(earlier.push(t)),
            _ => None,
        }
    }
}

pub open spec fn given_choices(input: json::JsonView) -> Seq<json::JsonView> {
    match json::items_of(json::field(input, "choices"@)) {
        Some(values) => values,
        None => Seq::empty(),
    }
}

/// The lines of what can be chosen.
pub open spec fn choice_lines(choices: Seq<Seq<char>>) -> Seq<Seq<char>> {
    choices.map_values(|c: Seq<char>| "- "@ + c)
}

/// The question as the user sees it.
pub open spec fn shown_question(question: Seq<char>, choices: Seq<Seq<char>>) -> Seq<char> {
    if choices.len() == 0 {
        question
    } else {
        question + "\n\n"@ + text::joined(choice_lines(choices), "\n"@)
    }
}

proof fn lemma_choice_none(values: Seq<json::JsonView>, n: int)
    requires
        0 <= n <= values.len(),
        choice_texts(values.take(n)) is None,
    ensures
        choice_texts(values) is None,
    decreases values.len() - n,
{
    if n < values.len() {
        assert(values.take(n + 1).drop_last() =~= values.take(n));
        lemma_choice_none(values, n + 1);
    } else {
        assert(values.take(n) =~= values);
    }
}

fn read_choices(values: &Vec<Json>) -> (r: Option<Vec<String>>)
    ensures
        match choice_texts(json::json_views(values@)) {
            Some(list) => r is Some && text::texts(r->0@) == list,
            None => r is None,
        },
{
    let ghost all = json::json_views(values@);
    let mut out = text::no_texts();
    let mut i: usize = 0;
    proof {
        assert(all.take(0) =~= Seq::empty());
    }
    while i < values.len()
        invariant
            i <= values@.len(),
            all == json::json_views(values@),
            choice_texts(all.take(i as int)) == Some(text::texts(out@)),
        decreases values@.len() - i,
    {
        proof {
            assert(all.take(i + 1).drop_last() =~= all.take(i as int));
            assert(all.take(i + 1).last() == values@[i as int]@);
        }
        match values[i].as_str() {
            Some(t) => text::push_text(&mut out, t),
            None => {
                proof {
                    lemma_choice_none(all, i + 1);
                }
                return None;
            },
        }
        i += 1;
    }
    proof {
        assert(all.take(i as int) =~= all);
    }
    Some(out)
}

/// Asks questions.
pub struct ToolQuestion {
    pub id: ToolId,
}

impl Default for ToolQuestion {
    fn default() -> (r: Self)
        ensures
            ids::is_random(r.id.0),
    {
        ToolQuestion::new()
    }
}

impl ToolQuestion {
    pub fn new() -> (r: Self)
        ensures
            ids::is_random(r.id.0),
    {
        ToolQuestion { id: ToolId(fresh()) }
    }

    pub fn name(&self) -> (r: &'static str)
        ensures
            r@ == "question"@,
    {
        "question"
    }

    /// Reads a request.
    pub fn read(&self, input: &Json) -> (r: model::Result<Asked>)
        ensures
            match json::text_at(input@, "question"@) {
                None => r is Err && r->Err_0@ == model::ErrorView::Tool(
                    "question requires question"@,
                ),
                Some(question) => match choice_texts(given_choices(input@)) {
                    Some(choices) => {
                        &&& r is Ok
                        &&& r->Ok_0 is Question
                        &&& r->Ok_0->Question_0.question@ == question
                        &&& text::texts(r->Ok_0->Question_0.choices@) == choices
                    },
                    None => {
                        &&& r is Ok
                        &&& r->Ok_0 is Refused
                        &&& r->Ok_0->Refused_0@ == model::OutputView::Failure(
                            "question choices must be strings"@,
                        )
                        &&& r->Ok_0->Refused_1@ == model::NoteView::Alert(
                            "question choices must be strings"@,
                        )
                    },
                },
            },
    {
        let question = match input.get_str("question") {
            Some(q) => text::owned(q),
            None => return Err(Error::Tool(text::owned("question requires question"))),
        };
        let choices = match input.get_array("choices") {
            Some(values) => read_choices(values),
            None => Some(text::no_texts()),
        };
        match choices {
            Some(choices) => Ok(Asked::Question(Question { question, choices })),
            None => Ok(
                Asked::Refused(
                    ToolOutput::Failure {
                        content: text::owned("question choices must be strings"),
                    },
                    NoteContent::Alert { content: text::owned("question choices must be strings") },
                ),
            ),
        }
    }

    /// The question as it is kept until the user answers.
    pub fn store(&self, question: &Question, turn_id: &str) -> (r: Json)
        ensures
            r@ == json::JsonView::Object(
                seq![
                    ("question"@, json::JsonView::Text(question.question@)),
                    ("choices"@, json::texts_view(text::texts(question.choices@))),
                    ("turn_id"@, json::JsonView::Text(turn_id@)),
                ],
            ),
    {
        let ghost all = json::texts_view(text::texts(question.choices@))->Array_0;
        let mut out: Vec<Json> = Vec::new();
        let mut i: usize = 0;
        proof {
            assert(json::json_views(out@) =~= all.take(0));
        }
        while i < question.choices.len()
            invariant
                i <= question.choices@.len(),
                all == json::texts_view(text::texts(question.choices@))->Array_0,
                json::json_views(out@) == all.take(i as int),
            decreases question.choices@.len() - i,
        {
            let ghost before = json::json_views(out@);
            let value = Json::text(question.choices[i].as_str());
            let ghost shown = value@;
            out.push(value);
            proof {
                assert(json::json_views(out@) =~= before.push(shown));
                assert(all.take(i + 1) =~= all.take(i as int).push(shown));
            }
            i += 1;
        }
        proof {
            assert(all.take(i as int) =~= all);
        }
        let fields = ObjectBuilder::new().with(
            "question",
            Json::text(question.question.as_str()),
        ).with("choices", json::array(out)).with("turn_id", Json::text(turn_id));
        proof {
            assert(fields@ =~= seq![
                ("question"@, json::JsonView::Text(question.question@)),
                ("choices"@, json::texts_view(text::texts(question.choices@))),
                ("turn_id"@, json::JsonView::Text(turn_id@)),
            ]);
        }
        fields.done()
    }

    /// The answer once the question is kept: the turn ends.
    pub fn conclude(&self, question: &Question) -> (r: (ToolOutput, NoteContent))
        ensures
            r.0@ == model::OutputView::Stop,
            r.1@ == model::NoteView::Info(
                shown_question(question.question@, text::texts(question.choices@)),
            ),
    {
        let ghost choices = text::texts(question.choices@);
        let ghost all = choice_lines(choices);
        let mut lines = text::no_texts();
        let mut i: usize = 0;
        proof {
            assert(all.take(0) =~= Seq::empty());
        }
        while i < question.choices.len()
            invariant
                i <= question.choices@.len(),
                choices == text::texts(question.choices@),
                all == choice_lines(choices),
                text::texts(lines@) == all.take(i as int),
            decreases question.choices@.len() - i,
        {
            let line = text::cat2("- ", question.choices[i].as_str());
            proof {
                assert(all.take(i + 1) =~= all.take(i as int).push(line@));
            }
            text::push_string(&mut lines, line);
            i += 1;
        }
        proof {
            assert(all.take(i as int) =~= all);
        }
        let content = if question.choices.len() == 0 {
            text::owned(question.question.as_str())
        } else {
            text::cat3(
                question.question.as_str(),
                "\n\n",
                text::join(lines.as_slice(), "\n").as_str(),
            )
        };
        (ToolOutput::Stop, NoteContent::Info { content })
    }
}

/// The plugin that offers the tool.
pub struct ToolQuestionPlugin {
    pub id: PluginId,
    pub tool: ToolQuestion,
}

impl ToolQuestionPlugin {
    pub fn new() -> (r: Self)
        ensures
            ids::is_random(r.id.0),
            ids::is_random(r.tool.id.0),
    {
        ToolQuestionPlugin { id: PluginId(fresh()), tool: ToolQuestion::new() }
    }

    pub fn name(&self) -> (r: &'static str)
        ensures
            r@ == "tool_question"@,
    {
        "tool_question"
    }
}

impl ToolQuestion {
    /// What the model gave the tool, which takes an object and no text.
    pub fn input<'a>(&self, input: &'a ToolInput) -> (r: model::Result<&'a Json>)
        ensures
            match *input {
                ToolInput::Json(value) => r is Ok && *r->Ok_0 == value,
                ToolInput::Text(_) => r is Err && r->Err_0@ == model::ErrorView::Tool(
                    "question input must be an object"@,
                ),
            },
    {
        proof {
            reveal_strlit("question");
            reveal_strlit(" input must be an object");
            reveal_strlit("question input must be an object");
            assert("question"@ + " input must be an object"@ =~= "question input must be an object"@);
        }
        input.object("question")
    }

    /// How the tool is described to a provider; `schema` is that of its input.
    pub fn definition(&self, schema: Json) -> (r: ToolDefinition)
        ensures
            r.name@ == "question"@,
            r.description@ == DESCRIPTION@,
            r.schema == schema,
            r.freeform is None,
    {
        ToolDefinition::new("question", DESCRIPTION, schema)
    }
}

/// Choices are taken in their order, and only texts are choices.
pub proof fn law_choices_are_texts(choices: Seq<Seq<char>>, values: Seq<json::JsonView>, i: int)
    ensures
        choice_texts(choices.map_values(|c: Seq<char>| json::JsonView::Text(c))) == Some(choices),
        0 <= i < values.len() && !(values[i] is Text) ==> choice_texts(values) is None,
    decreases choices.len() + values.len(),
{
    let all = choices.map_values(|c: Seq<char>| json::JsonView::Text(c));
    if choices.len() > 0 {
        law_choices_are_texts(choices.drop_last(), values, i);
        assert(all.drop_last() =~= choices.drop_last().map_values(
            |c: Seq<char>| json::JsonView::Text(c),
        ));
        assert(choices.drop_last().push(choices.last()) =~= choices);
    } else {
        assert(all =~= Seq::empty());
        assert(choices =~= Seq::empty());
    }
    if 0 <= i < values.len() - 1 {
        law_choices_are_texts(choices, values.drop_last(), i);
    }
}

/// A question is shown as it is asked, and behind it each choice on a line of its own.
pub proof fn law_questions_show_their_choices(
    question: Seq<char>,
    choices: Seq<Seq<char>>,
    one: Seq<char>,
)
    ensures
        shown_question(question, Seq::empty()) == question,
        shown_question(question, seq![one]) == question + "\n\n- "@ + one,
        choices.len() > 0 ==> shown_question(question, choices.push(one)) == shown_question(
            question,
            choices,
        ) + "\n- "@ + one,
{
    reveal_strlit("\n\n");
    reveal_strlit("- ");
    reveal_strlit("\n\n- ");
    reveal_strlit("\n");
    reveal_strlit("\n- ");
    assert(choice_lines(seq![one]) =~= seq!["- "@ + one]);
    assert(shown_question(question, seq![one]) =~= question + "\n\n- "@ + one);
    if choices.len() > 0 {
        let more = choices.push(one);
        assert(choice_lines(more) =~= choice_lines(choices).push("- "@ + one));
        assert(choice_lines(more).drop_last() =~= choice_lines(choices));
        assert(shown_question(question, more) =~= shown_question(question, choices) + "\n- "@
            + one);
    }
}

} // verus!
