//! The tools of the chat agent: what the model is told of them, and what becomes
//! of a call.

use vstd::prelude::*;

use crate::json::{member_or_empty, string_members, string_or_empty};
use crate::llm::{def_views, ToolDef, ToolDefView, ToolParam, ToolParamView};
use crate::text::{
    begins_with, from_chars, is_blank, law_blank, law_trim, lemma_trim_by, lemma_trim_nothing, lemma_trim_twice,
    same_text, to_chars, trim_spec, trim_white, white_space,
};

verus! {

/// The name of the tool that searches the whole repository.
pub const TOOL_CODEBASE: &'static str = "codebase-retrieval";

/// The name of the tool that retrieves parts of one file.
pub const TOOL_FILE: &'static str = "file-retrieval";

/// Max characters of a tool result forwarded to the UI as a preview.
pub const PREVIEW_CHARS: usize = 280;

/// How many chunks of a file are retrieved at most.
pub const FILE_CHUNKS: u32 = 5;

pub const SEARCH_DESCRIPTION: &'static str =
    "Search this repository's index for code and context relevant to a \
                natural-language request. Returns ranked source snippets with file paths and \
                line ranges. Use this first for any question about how the project works.";

pub const SEARCH_REQUEST_DESCRIPTION: &'static str =
    "A detailed natural-language description of what you \
                            need to find (e.g. 'how is the vector index sharded per repo').";

pub const FILE_DESCRIPTION: &'static str =
    "Retrieve the most relevant chunks of ONE specific file in this \
                repository for a request. Use after codebase-retrieval points you at a file \
                and you need more of its content.";

pub const FILE_PATH_DESCRIPTION: &'static str =
    "Path to the file, relative to the repository root.";

pub const FILE_REQUEST_DESCRIPTION: &'static str = "What you need to learn from this file.";

pub const PROMPT_OPENING: &'static str =
    "You are a helpful assistant answering questions about a single software repository \
located at `";

pub const PROMPT_TOOLS: &'static str = "`.\n\nYou have exactly two tools: `";

pub const PROMPT_SEARCH_TOOL: &'static str = "` (semantic search over the whole repo index) and `";

pub const PROMPT_FILE_TOOL: &'static str =
    "` (retrieve chunks of one specific file). You have NO other tools and NO direct \
filesystem or shell access. Do not claim to run commands, open files directly, or use any tool \
other than these two.\n\n\
Guidelines:\n\
- For almost every question, call `";

pub const PROMPT_SEARCH_FIRST: &'static str =
    "` first to gather real context before \
answering. Do not guess about the codebase from memory.\n\
- Use `";

pub const PROMPT_GUIDELINES: &'static str =
    "` to dig deeper into a specific file once you know which one matters.\n\
- You may call the tools multiple times to refine your understanding.\n\
- Ground your answer in what the tools returned. Cite file paths and line ranges (e.g. \
`src/foo.rs#L10-40`) when relevant.\n\
- If the tools return no useful context, say so honestly rather than inventing details.\n\
- Answer in the same language the user asked in. Keep technical terms in their original form.";

/// A parameter of type string.
pub open spec fn string_param(name: Seq<char>, description: Seq<char>) -> ToolParamView {
    ToolParamView { name, kind: "string"@, description }
}

/// The definition of the search tool.
pub open spec fn codebase_def() -> ToolDefView {
    ToolDefView {
        name: TOOL_CODEBASE@,
        description: SEARCH_DESCRIPTION@,
        properties: seq![string_param("information_request"@, SEARCH_REQUEST_DESCRIPTION@)],
        required: seq!["information_request"@],
    }
}

/// The definition of the file tool.
pub open spec fn file_def() -> ToolDefView {
    ToolDefView {
        name: TOOL_FILE@,
        description: FILE_DESCRIPTION@,
        properties: seq![
            string_param("file_path"@, FILE_PATH_DESCRIPTION@),
            string_param("information_request"@, FILE_REQUEST_DESCRIPTION@),
        ],
        required: seq!["file_path"@, "information_request"@],
    }
}

/// The definitions of the two allowed tools.
pub open spec fn tool_defs_spec() -> Seq<ToolDefView> {
    seq![codebase_def(), file_def()]
}

/// The instructions for the model in a conversation about `repo`.
pub open spec fn system_prompt_spec(repo: Seq<char>) -> Seq<char> {
    PROMPT_OPENING@ + repo + PROMPT_TOOLS@ + TOOL_CODEBASE@ + PROMPT_SEARCH_TOOL@ + TOOL_FILE@
        + PROMPT_FILE_TOOL@ + TOOL_CODEBASE@ + PROMPT_SEARCH_FIRST@ + TOOL_FILE@
        + PROMPT_GUIDELINES@
}

/// Retrieval work that a tool call asks for, always within one repository.
#[derive(Debug, Clone)]
pub enum Retrieval {
    /// Search the whole index of `repo`.
    Codebase { repo: String, information_request: String },
    /// Retrieve at most `max_chunks` chunks of one file of `repo`.
    File { repo: String, file_path: String, information_request: String, max_chunks: u32 },
}

/// What a [`Retrieval`] says.
#[verifier::ext_equal]
pub enum RetrievalView {
    Codebase { repo: Seq<char>, information_request: Seq<char> },
    File {
        repo: Seq<char>,
        file_path: Seq<char>,
        information_request: Seq<char>,
        max_chunks: u32,
    },
}

impl View for Retrieval {
    type V = RetrievalView;

    open spec fn view(&self) -> RetrievalView {
        match *self {
            Retrieval::Codebase { repo, information_request } => RetrievalView::Codebase {
                repo: repo@,
                information_request: information_request@,
            },
            Retrieval::File { repo, file_path, information_request, max_chunks } =>
                RetrievalView::File {
                repo: repo@,
                file_path: file_path@,
                information_request: information_request@,
                max_chunks,
            },
        }
    }
}

impl RetrievalView {
    /// The repository that the retrieval reads.
    pub open spec fn repo(self) -> Seq<char> {
        match self {
            RetrievalView::Codebase { repo, .. } => repo,
            RetrievalView::File { repo, .. } => repo,
        }
    }
}

/// What becomes of a tool call: it is answered at once, or retrieval is needed.
#[derive(Debug, Clone)]
pub enum ToolStep {
    Answer { text: String, ok: bool },
    Retrieve(Retrieval),
}

/// What a [`ToolStep`] says.
#[verifier::ext_equal]
pub enum ToolStepView {
    Answer { text: Seq<char>, ok: bool },
    Retrieve(RetrievalView),
}

impl View for ToolStep {
    type V = ToolStepView;

    open spec fn view(&self) -> ToolStepView {
        match *self {
            ToolStep::Answer { text, ok } => ToolStepView::Answer { text: text@, ok },
            ToolStep::Retrieve(r) => ToolStepView::Retrieve(r@),
        }
    }
}

/// The answer to a call of a tool that there is not.
pub open spec fn refusal(name: Seq<char>) -> Seq<char> {
    "Error: tool '"@ + name + "' is not available. You may only use '"@ + TOOL_CODEBASE@
        + "' and '"@ + TOOL_FILE@ + "'."@
}

/// What becomes of a call of the tool `name` with `args` in a conversation about
/// `repo`.
pub open spec fn run_tool_spec(
    repo: Seq<char>,
    name: Seq<char>,
    args: serde_json::Value,
) -> ToolStepView {
    let request = member_or_empty(args, "information_request"@);
    let path = member_or_empty(args, "file_path"@);
    if name == TOOL_CODEBASE@ {
        if trim_spec(request).len() == 0 {
            ToolStepView::Answer { text: "Error: information_request is required."@, ok: false }
        } else {
            ToolStepView::Retrieve(RetrievalView::Codebase { repo, information_request: request })
        }
    } else if name == TOOL_FILE@ {
        if trim_spec(path).len() == 0 || trim_spec(request).len() == 0 {
            ToolStepView::Answer {
                text: "Error: file_path and information_request are required."@,
                ok: false,
            }
        } else {
            ToolStepView::Retrieve(
                RetrievalView::File {
                    repo,
                    file_path: path,
                    information_request: request,
                    max_chunks: FILE_CHUNKS,
                },
            )
        }
    } else {
        ToolStepView::Answer { text: refusal(name), ok: false }
    }
}

/// Whether a tool's output is an error text.
pub open spec fn is_error_text(out: Seq<char>) -> bool {
    "Error:"@.is_prefix_of(out)
}

/// The label of a tool call.
pub open spec fn tool_summary_spec(name: Seq<char>, args: serde_json::Value) -> Seq<char> {
    let request = member_or_empty(args, "information_request"@);
    if name == TOOL_CODEBASE@ {
        request
    } else if name == TOOL_FILE@ {
        member_or_empty(args, "file_path"@) + " — "@ + request
    } else {
        name
    }
}

/// `text` without the white space around it, cut to the length of a preview.
pub open spec fn preview_spec(text: Seq<char>) -> Seq<char> {
    let trimmed = trim_spec(text);
    if trimmed.len() <= PREVIEW_CHARS {
        trimmed
    } else {
        trimmed.take(PREVIEW_CHARS as int).push('…')
    }
}

fn string_parameter(name: &str, description: &str) -> (res: ToolParam)
    ensures
        res@ == string_param(name@, description@),
{
    ToolParam {
        name: name.to_owned(),
        kind: "string".to_owned(),
        description: description.to_owned(),
    }
}

/// Build the two allowed tool definitions. The repository is no parameter, so the
/// model can neither supply nor target another one.
pub fn tool_defs() -> (res: Vec<ToolDef>)
    ensures
        def_views(res@) == tool_defs_spec(),
{
    let search = ToolDef {
        name: TOOL_CODEBASE.to_owned(),
        description: SEARCH_DESCRIPTION.to_owned(),
        properties: vec![string_parameter("information_request", SEARCH_REQUEST_DESCRIPTION)],
        required: vec!["information_request".to_owned()],
    };
    let file = ToolDef {
        name: TOOL_FILE.to_owned(),
        description: FILE_DESCRIPTION.to_owned(),
        properties: vec![
            string_parameter("file_path", FILE_PATH_DESCRIPTION),
            string_parameter("information_request", FILE_REQUEST_DESCRIPTION),
        ],
        required: vec!["file_path".to_owned(), "information_request".to_owned()],
    };
    assert(search@ =~~= codebase_def());
    assert(file@ =~~= file_def());
    let res = vec![search, file];
    assert(def_views(res@) =~= tool_defs_spec());
    res
}

/// The instructions for the model in a conversation about `repo`.
pub fn system_prompt(repo: &str) -> (res: String)
    ensures
        res@ == system_prompt_spec(repo@),
{
    let mut res = PROMPT_OPENING.to_owned();
    res.append(repo);
    res.append(PROMPT_TOOLS);
    res.append(TOOL_CODEBASE);
    res.append(PROMPT_SEARCH_TOOL);
    res.append(TOOL_FILE);
    res.append(PROMPT_FILE_TOOL);
    res.append(TOOL_CODEBASE);
    res.append(PROMPT_SEARCH_FIRST);
    res.append(TOOL_FILE);
    res.append(PROMPT_GUIDELINES);
    res
}

/// Decide one tool call for the fixed repo. A tool name that is not one of the
/// two yields an error text, so that the model can recover on the next turn: this
/// is the hard lock on the tool surface.
pub fn run_tool(repo: &str, name: &str, args: &serde_json::Value) -> (res: ToolStep)
    ensures
        res@ == run_tool_spec(repo@, name@, *args),
{
    if same_text(name, TOOL_CODEBASE) {
        let request = string_or_empty(args, "information_request");
        if is_blank(request.as_str()) {
            return ToolStep::Answer {
                text: "Error: information_request is required.".to_owned(),
                ok: false,
            };
        }
        ToolStep::Retrieve(
            Retrieval::Codebase { repo: repo.to_owned(), information_request: request },
        )
    } else if same_text(name, TOOL_FILE) {
        let path = string_or_empty(args, "file_path");
        let request = string_or_empty(args, "information_request");
        if is_blank(path.as_str()) || is_blank(request.as_str()) {
            return ToolStep::Answer {
                text: "Error: file_path and information_request are required.".to_owned(),
                ok: false,
            };
        }
        ToolStep::Retrieve(
            Retrieval::File {
                repo: repo.to_owned(),
                file_path: path,
                information_request: request,
                max_chunks: FILE_CHUNKS,
            },
        )
    } else {
        let mut text = "Error: tool '".to_owned();
        text.append(name);
        text.append("' is not available. You may only use '");
        text.append(TOOL_CODEBASE);
        text.append("' and '");
        text.append(TOOL_FILE);
        text.append("'.");
        ToolStep::Answer { text, ok: false }
    }
}

/// Whether what a retrieval returned counts as a success.
pub fn retrieval_ok(out: &str) -> (res: bool)
    ensures
        res == !is_error_text(out@),
{
    !begins_with(out, "Error:")
}

/// Short, human-friendly label for a tool call shown in the UI.
pub fn tool_summary(name: &str, args: &serde_json::Value) -> (res: String)
    ensures
        res@ == tool_summary_spec(name@, *args),
{
    if same_text(name, TOOL_CODEBASE) {
        string_or_empty(args, "information_request")
    } else if same_text(name, TOOL_FILE) {
        let mut res = string_or_empty(args, "file_path");
        res.append(" — ");
        res.append(string_or_empty(args, "information_request").as_str());
        res
    } else {
        name.to_owned()
    }
}

/// The beginning of a tool result, as the UI shows it.
pub fn preview(text: &str) -> (res: String)
    ensures
        res@ == preview_spec(text@),
{
    let chars = to_chars(text);
    let (lo, hi) = trim_white(&chars);
    if hi - lo <= PREVIEW_CHARS {
        from_chars(&chars, lo, hi)
    } else {
        let mut res = from_chars(&chars, lo, lo + PREVIEW_CHARS);
        assert(trim_spec(text@).take(PREVIEW_CHARS as int) =~= res@);
        res.push('…');
        res
    }
}

/// A tool other than the two allowed ones is never run: whatever its arguments,
/// it is answered at once, as a failure, with a text that starts with `Error:`.
pub proof fn law_other_tools_are_refused(
    repo: Seq<char>,
    name: Seq<char>,
    args: serde_json::Value,
)
    requires
        name != TOOL_CODEBASE@,
        name != TOOL_FILE@,
    ensures
        run_tool_spec(repo, name, args) == (ToolStepView::Answer {
            text: refusal(name),
            ok: false,
        }),
        is_error_text(refusal(name)),
{
    reveal_strlit("Error:");
    reveal_strlit("Error: tool '");
    let r = refusal(name);
    assert(r.subrange(0, 6) =~= "Error:"@);
}

/// Whatever the model asks for, retrieval stays within the conversation's
/// repository, and is for a request that is not blank.
pub proof fn law_retrieval_stays_in_repo(
    repo: Seq<char>,
    name: Seq<char>,
    args: serde_json::Value,
)
    ensures
        run_tool_spec(repo, name, args) matches ToolStepView::Retrieve(r) ==> {
            &&& r.repo() == repo
            &&& name == TOOL_CODEBASE@ || name == TOOL_FILE@
            &&& match r {
                RetrievalView::Codebase { information_request, .. } => trim_spec(
                    information_request,
                ).len() > 0,
                RetrievalView::File { file_path, information_request, max_chunks, .. } => {
                    &&& trim_spec(file_path).len() > 0
                    &&& trim_spec(information_request).len() > 0
                    &&& max_chunks == FILE_CHUNKS
                },
            }
        },
{
}

/// A preview of a preview is that preview.
pub proof fn law_preview_twice(text: Seq<char>)
    ensures
        preview_spec(preview_spec(text)) == preview_spec(text),
{
    let drop = |c: char| white_space(c);
    let trimmed = trim_spec(text);
    let shown = preview_spec(text);
    lemma_trim_by(text, drop);
    if trimmed.len() <= PREVIEW_CHARS {
        lemma_trim_twice(text, drop);
    } else {
        assert(shown[0] == trimmed[0]);
        assert(!drop('…'));
        lemma_trim_nothing(shown, drop);
        assert(shown.take(PREVIEW_CHARS as int) =~= trimmed.take(PREVIEW_CHARS as int));
    }
}

/// A preview is never longer than its limit and one character, and a text that
/// fits is shown whole but for the white space around it.
pub proof fn law_preview_is_short(text: Seq<char>)
    ensures
        preview_spec(text).len() <= PREVIEW_CHARS + 1,
        trim_spec(text).len() <= PREVIEW_CHARS ==> preview_spec(text) == trim_spec(text),
        trim_spec(text).len() > PREVIEW_CHARS ==> preview_spec(text).last() == '…'
            && preview_spec(text).drop_last().is_prefix_of(trim_spec(text)),
{
    if trim_spec(text).len() > PREVIEW_CHARS {
        assert(preview_spec(text).drop_last() =~= trim_spec(text).take(PREVIEW_CHARS as int));
    }
}

/// A preview shows what stands between the white space at either end of the text: all
/// of it when that is at most 280 characters, and else its first 280 characters and an
/// ellipsis.
pub proof fn law_preview_shows_the_beginning(text: Seq<char>, i: int, j: int)
    requires
        0 <= i <= j <= text.len(),
        forall|k: int| (0 <= k < i || j <= k < text.len()) ==> white_space(#[trigger] text[k]),
        i < j ==> !white_space(text[i]) && !white_space(text[j - 1]),
    ensures
        j - i <= 280 ==> preview_spec(text) == text.subrange(i, j),
        j - i > 280 ==> preview_spec(text) == text.subrange(i, i + 280).push('…'),
{
    law_trim(text, |c: char| white_space(c), i, j);
    if j - i > 280 {
        assert(text.subrange(i, j).take(280) =~= text.subrange(i, i + 280));
    }
}

/// Whether some character of `text` is not white space.
pub open spec fn says_something(text: Seq<char>) -> bool {
    exists|i: int| 0 <= i < text.len() && !white_space(#[trigger] text[i])
}

/// The search tool is run for every request that says something, with that request as
/// it was written; without one it is answered with an error.
pub proof fn law_search_is_run(repo: Seq<char>, args: serde_json::Value)
    ensures
        ({
            let given = string_members(args);
            let step = run_tool_spec(repo, "codebase-retrieval"@, args);
            if given.contains_key("information_request"@) && says_something(
                given["information_request"@],
            ) {
                step == ToolStepView::Retrieve(
                    RetrievalView::Codebase {
                        repo,
                        information_request: given["information_request"@],
                    },
                )
            } else {
                step == (ToolStepView::Answer {
                    text: "Error: information_request is required."@,
                    ok: false,
                })
            }
        }),
{
    law_blank(member_or_empty(args, "information_request"@));
}

/// The file tool is run for every request and file path that say something, with both
/// as they were written and for at most five chunks; without one of them it is answered
/// with an error.
pub proof fn law_file_retrieval_is_run(repo: Seq<char>, args: serde_json::Value)
    ensures
        ({
            let given = string_members(args);
            let step = run_tool_spec(repo, "file-retrieval"@, args);
            if given.contains_key("information_request"@) && says_something(
                given["information_request"@],
            ) && given.contains_key("file_path"@) && says_something(given["file_path"@]) {
                step == ToolStepView::Retrieve(
                    RetrievalView::File {
                        repo,
                        file_path: given["file_path"@],
                        information_request: given["information_request"@],
                        max_chunks: 5,
                    },
                )
            } else {
                step == (ToolStepView::Answer {
                    text: "Error: file_path and information_request are required."@,
                    ok: false,
                })
            }
        }),
{
    reveal_strlit("codebase-retrieval");
    reveal_strlit("file-retrieval");
    assert("codebase-retrieval"@[0] == 'c' && "file-retrieval"@[0] == 'f');
    law_blank(member_or_empty(args, "information_request"@));
    law_blank(member_or_empty(args, "file_path"@));
}

/// A call of any other tool is answered with an error that names it.
pub proof fn law_refusal_names_the_tool(
    repo: Seq<char>,
    name: Seq<char>,
    args: serde_json::Value,
)
    requires
        name != "codebase-retrieval"@,
        name != "file-retrieval"@,
    ensures
        run_tool_spec(repo, name, args) == (ToolStepView::Answer {
            text: "Error: tool '"@ + name + "' is not available. You may only use '"@
                + "codebase-retrieval"@ + "' and '"@ + "file-retrieval"@ + "'."@,
            ok: false,
        }),
{
}

/// An output counts as an error exactly where it starts with `Error:`.
pub proof fn law_error_texts(out: Seq<char>)
    ensures
        is_error_text(out) <==> out.len() >= 6 && out[0] == 'E' && out[1] == 'r' && out[2] == 'r'
            && out[3] == 'o' && out[4] == 'r' && out[5] == ':',
{
    reveal_strlit("Error:");
    let word = "Error:"@;
    assert(word.len() == 6);
    assert(word[0] == 'E' && word[1] == 'r' && word[2] == 'r' && word[3] == 'o' && word[4] == 'r'
        && word[5] == ':');
    if is_error_text(out) {
        let head = out.subrange(0, 6);
        assert(head == word);
        assert(head[0] == out[0] && head[1] == out[1] && head[2] == out[2] && head[3] == out[3]
            && head[4] == out[4] && head[5] == out[5]);
    } else if out.len() >= 6 && out[0] == 'E' && out[1] == 'r' && out[2] == 'r' && out[3] == 'o'
        && out[4] == 'r' && out[5] == ':' {
        assert(out.subrange(0, 6) =~= word);
    }
}

/// The label of a tool call: of a search its whole request, of a file retrieval the
/// path and the request with a dash between them, of any other tool its name. What is
/// missing counts as empty.
pub proof fn law_summary_shows_the_arguments(name: Seq<char>, args: serde_json::Value)
    ensures
        ({
            let given = string_members(args);
            let request = if given.contains_key("information_request"@) {
                given["information_request"@]
            } else {
                Seq::empty()
            };
            let path = if given.contains_key("file_path"@) {
                given["file_path"@]
            } else {
                Seq::empty()
            };
            tool_summary_spec(name, args) == if name == "codebase-retrieval"@ {
                request
            } else if name == "file-retrieval"@ {
                path + " — "@ + request
            } else {
                name
            }
        }),
{
}

/// The prompts of two repositories differ in the path alone, which stands in them
/// whole, once and at one place.
pub proof fn law_prompts_differ_in_the_repo_alone(repo: Seq<char>, other: Seq<char>)
    ensures
        ({
            let at = "You are a helpful assistant answering questions about a single software repository located at `"@.len()
                as int;
            let (a, b) = (system_prompt_spec(repo), system_prompt_spec(other));
            &&& a.len() - repo.len() == b.len() - other.len()
            &&& a.take(at) == b.take(at)
            &&& a.subrange(at, at + repo.len()) == repo
            &&& a.skip(at + repo.len()) == b.skip(at + other.len())
        }),
{
    reveal_strlit(
        "You are a helpful assistant answering questions about a single software repository located at `",
    );
    let at = PROMPT_OPENING@.len() as int;
    let (a, b) = (system_prompt_spec(repo), system_prompt_spec(other));
    assert(a.take(at) =~= PROMPT_OPENING@);
    assert(b.take(at) =~= PROMPT_OPENING@);
    assert(a.subrange(at, at + repo.len()) =~= repo);
    assert(a.skip(at + repo.len()) =~= b.skip(at + other.len()));
}

/// A retrieval and a tool step say what their fields hold.
pub proof fn law_steps_say_what_they_hold(retrieval: Retrieval, step: ToolStep)
    ensures
        retrieval matches Retrieval::Codebase { repo, information_request } ==> retrieval@ == (
        RetrievalView::Codebase { repo: repo@, information_request: information_request@ }),
        retrieval matches Retrieval::File { repo, file_path, information_request, max_chunks }
            ==> retrieval@ == (RetrievalView::File {
            repo: repo@,
            file_path: file_path@,
            information_request: information_request@,
            max_chunks,
        }),
        step matches ToolStep::Answer { text, ok } ==> step@ == (ToolStepView::Answer {
            text: text@,
            ok,
        }),
        step matches ToolStep::Retrieve(r) ==> step@ == ToolStepView::Retrieve(r@),
{
}

} // verus!
