//! The `:` command line: parsing typed commands, and the documents they
//! open.

use vstd::prelude::*;

use crate::text::has_head;
use crate::text::lines;
use crate::text::lines_of;
use crate::text::same_text;
use crate::text::starts_with;
use crate::text::trim;
use crate::text::trim_front;
use crate::text::trim_start;
use crate::text::trimmed;

verus! {

/// A document viewable with `:help` / `:readme`.
#[derive(Clone, Copy, PartialEq, Eq, Structural, Debug)]
pub enum Doc {
    Help,
    Readme,
}

/// A parsed `:` command.
#[derive(Clone, Copy, PartialEq, Eq, Structural, Debug)]
pub enum Command {
    Open(Doc),
    SavePlan,
    OpenLibrary,
    DeletePlan,
    ClearGoal,
    ReloadPool,
    Quit,
}

/// The input the prompt could not parse; its message is the offending
/// text.
#[derive(PartialEq, Eq, Debug)]
pub struct UnknownCommand(String);

impl View for UnknownCommand {
    type V = Seq<char>;

    closed spec fn view(&self) -> Seq<char> {
        self.0@
    }
}

impl UnknownCommand {
    pub fn message(&self) -> (r: &str)
        ensures
            r@ == self@,
    {
        self.0.as_str()
    }
}

/// The command that a word stands for.
pub open spec fn command_named(word: Seq<char>) -> Option<Command> {
    if word == "help"@ {
        Some(Command::Open(Doc::Help))
    } else if word == "readme"@ {
        Some(Command::Open(Doc::Readme))
    } else if word == "w"@ {
        Some(Command::SavePlan)
    } else if word == "o"@ {
        Some(Command::OpenLibrary)
    } else if word == "dd"@ {
        Some(Command::DeletePlan)
    } else if word == "clear"@ {
        Some(Command::ClearGoal)
    } else if word == "reload"@ {
        Some(Command::ReloadPool)
    } else if word == "q"@ || word == "quit"@ {
        Some(Command::Quit)
    } else {
        None
    }
}

impl Command {
    /// Parses a prompt line. Callers decide what an empty line means
    /// (vim closes the prompt silently).
    pub fn parse(input: &str) -> (r: Result<Self, UnknownCommand>)
        ensures
            match r {
                Ok(command) => command_named(trimmed(input@)) == Some(command),
                Err(unknown) => command_named(trimmed(input@)) is None && unknown@ == trimmed(
                    input@,
                ),
            },
    {
        let word = trim(input);
        let w = word.as_str();
        if same_text(w, "help") {
            Ok(Command::Open(Doc::Help))
        } else if same_text(w, "readme") {
            Ok(Command::Open(Doc::Readme))
        } else if same_text(w, "w") {
            Ok(Command::SavePlan)
        } else if same_text(w, "o") {
            Ok(Command::OpenLibrary)
        } else if same_text(w, "dd") {
            Ok(Command::DeletePlan)
        } else if same_text(w, "clear") {
            Ok(Command::ClearGoal)
        } else if same_text(w, "reload") {
            Ok(Command::ReloadPool)
        } else if same_text(w, "q") || same_text(w, "quit") {
            Ok(Command::Quit)
        } else {
            Err(UnknownCommand(word))
        }
    }
}

// ---------------------------------------------------------------------
// Line breaks
// ---------------------------------------------------------------------
/// A line opens or closes a code fence.
pub open spec fn is_fence(line: Seq<char>) -> bool {
    has_head(trim_front(line), "```"@)
}

/// The lines from one on, each soft break outside a code fence made a
/// hard one (two spaces before the line feed).
pub open spec fn hard_broken(list: Seq<Seq<char>>, in_fence: bool) -> Seq<char>
    decreases list.len(),
{
    if list.len() == 0 {
        Seq::empty()
    } else {
        let line = list[0];
        let inside = if is_fence(line) {
            !in_fence
        } else {
            in_fence
        };
        let end = if !inside && line.len() > 0 {
            "  \n"@
        } else {
            "\n"@
        };
        line + end + hard_broken(list.drop_first(), inside)
    }
}

/// Turns every soft line break outside a code fence into a markdown
/// hard break (trailing double space), so that hand-wrapped paragraph
/// lines are not joined. Fenced code keeps its exact text.
pub fn preserve_line_breaks(markdown: &str) -> (r: String)
    ensures
        r@ == hard_broken(lines(markdown@), false),
{
    let list = lines_of(markdown);
    let ghost views = lines(markdown@);
    let mut in_fence = false;
    let mut out = String::new();
    let mut i: usize = 0;
    proof {
        assert(list@.map_values(|t: String| t@).len() == views.len());
        assert(views.skip(0) =~= views);
        assert(out@ + hard_broken(views, false) =~= hard_broken(views, false));
    }
    while i < list.len()
        invariant
            views == lines(markdown@),
            list@.map_values(|t: String| t@) == views,
            list@.len() == views.len(),
            i <= list@.len(),
            out@ + hard_broken(views.skip(i as int), in_fence) == hard_broken(views, false),
        decreases list@.len() - i,
    {
        let line = list[i].as_str();
        let ghost so_far = out@;
        let ghost was_inside = in_fence;
        proof {
            assert(list@.map_values(|t: String| t@)[i as int] == line@);
            assert(views.skip(i as int)[0] == line@);
            assert(views.skip(i as int).drop_first() =~= views.skip(i + 1));
        }
        if starts_with(trim_start(line).as_str(), "```") {
            in_fence = !in_fence;
        }
        out.append(line);
        if !in_fence && crate::text::chars_of(line).len() > 0 {
            out.append("  \n");
            proof {
                let tail = hard_broken(views.skip(i + 1), in_fence);
                assert(so_far + (line@ + "  \n"@ + tail) =~= out@ + tail);
            }
        } else {
            out.append("\n");
            proof {
                let tail = hard_broken(views.skip(i + 1), in_fence);
                assert(so_far + (line@ + "\n"@ + tail) =~= out@ + tail);
            }
        }
        i = i + 1;
    }
    proof {
        assert(views.skip(i as int) =~= Seq::empty());
        assert(out@ + Seq::<char>::empty() =~= out@);
    }
    out
}

// ---------------------------------------------------------------------
// Documents
// ---------------------------------------------------------------------
/// How many lines a markdown text renders to.
pub uninterp spec fn rendered_lines(markdown: Seq<char>) -> nat;

/// `tui_markdown::from_str`: the number of lines of the text that the
/// markdown renders to, which depends on the markdown alone. What the
/// lines hold is not stated.
#[verifier::external_body]
fn count_rendered_lines(markdown: &str) -> (r: usize)
    ensures
        r == rendered_lines(markdown@),
{
    tui_markdown::from_str(markdown).lines.len()
}

/// A document's markdown, prepared so that the viewer shows the
/// authored line layout instead of joined paragraphs, and how many
/// lines it renders to.
#[derive(Debug)]
pub struct Page {
    markdown: String,
    line_count: u16,
}

impl Page {
    /// The prepared markdown.
    pub closed spec fn text(&self) -> Seq<char> {
        self.markdown@
    }

    /// How many lines it renders to.
    pub closed spec fn height(&self) -> u16 {
        self.line_count
    }

    /// Prepares a document that renders to `line_count` lines.
    fn of(markdown: String, line_count: u16) -> (r: Self)
        ensures
            r.text() == markdown@,
            r.height() == line_count,
    {
        Page { markdown, line_count }
    }

    /// Prepares a document; `None` when it renders to more lines than
    /// the viewer can count.
    pub fn prepare(source: &str) -> (r: Option<Self>)
        ensures
            ({
                let text = hard_broken(lines(source@), false);
                match r {
                    Some(page) => page.text() == text && page.height() == rendered_lines(text),
                    None => rendered_lines(text) > u16::MAX,
                }
            }),
    {
        let markdown = preserve_line_breaks(source);
        let count: usize = count_rendered_lines(markdown.as_str());
        if count > 65535 {
            None
        } else {
            Some(Page::of(markdown, count as u16))
        }
    }
}

/// The documents of the program.
#[derive(Debug)]
pub struct Documents {
    pub help: Page,
    pub readme: Page,
}

impl Documents {
    /// The page of a document.
    pub open spec fn page(&self, doc: Doc) -> Page {
        match doc {
            Doc::Help => self.help,
            Doc::Readme => self.readme,
        }
    }
}

impl Doc {
    /// The title of the viewer.
    pub open spec fn heading(self) -> Seq<char> {
        match self {
            Doc::Help => " Help "@,
            Doc::Readme => " README "@,
        }
    }

    pub fn title(self) -> (r: &'static str)
        ensures
            r@ == self.heading(),
    {
        match self {
            Doc::Help => " Help ",
            Doc::Readme => " README ",
        }
    }

    /// The document's prepared markdown.
    pub fn markdown(self, documents: &Documents) -> (r: &str)
        ensures
            r@ == documents.page(self).text(),
    {
        match self {
            Doc::Help => documents.help.markdown.as_str(),
            Doc::Readme => documents.readme.markdown.as_str(),
        }
    }

    /// How many lines the document renders to.
    fn line_count(self, documents: &Documents) -> (r: u16)
        ensures
            r == documents.page(self).height(),
    {
        match self {
            Doc::Help => documents.help.line_count,
            Doc::Readme => documents.readme.line_count,
        }
    }
}

// ---------------------------------------------------------------------
// The viewer
// ---------------------------------------------------------------------
/// One page-key stride. The viewer does not know the terminal height,
/// so this is a fixed stride rather than a viewport page.
pub const PAGE_LINES: u16 = 15;

/// An open document plus its scroll position, clamped so the last line
/// can reach the top of the viewport but never scroll past it.
#[derive(Clone, Copy, PartialEq, Eq, Structural, Debug)]
pub struct DocView {
    pub doc: Doc,
    pub scroll: u16,
    pub line_count: u16,
}

/// A number brought into a range.
pub open spec fn clamped(value: int, least: int, most: int) -> int {
    if value < least {
        least
    } else if value > most {
        most
    } else {
        value
    }
}

impl DocView {
    /// The largest scroll position.
    pub open spec fn bottom(&self) -> int {
        if self.line_count == 0 {
            0
        } else {
            self.line_count - 1
        }
    }

    /// The invariant: the view does not lie past the last line.
    pub open spec fn wf(&self) -> bool {
        self.scroll <= self.bottom()
    }

    /// A view scrolled elsewhere.
    pub open spec fn scrolled_to(self, scroll: int) -> DocView {
        DocView { scroll: scroll as u16, ..self }
    }

    /// A view scrolled by lines.
    pub open spec fn scrolled(self, delta: int) -> DocView {
        self.scrolled_to(clamped(self.scroll + delta, 0, self.bottom()))
    }

    /// A view scrolled by pages.
    pub open spec fn paged(self, delta: int) -> DocView {
        self.scrolled(clamped(delta * PAGE_LINES, i16::MIN as int, i16::MAX as int))
    }

    /// Opens a document at its top.
    pub fn open(doc: Doc, documents: &Documents) -> (r: Self)
        ensures
            r.wf(),
            r == (DocView { doc, scroll: 0, line_count: documents.page(doc).height() }),
    {
        DocView { doc, scroll: 0, line_count: doc.line_count(documents) }
    }

    pub fn scroll_lines(&mut self, delta: i16)
        ensures
            final(self).wf(),
            *final(self) == old(self).scrolled(delta as int),
    {
        let moved: i32 = self.scroll as i32 + delta as i32;
        let bottom: u16 = self.max_scroll();
        self.scroll = if moved < 0 {
            0
        } else if moved > bottom as i32 {
            bottom
        } else {
            moved as u16
        };
    }

    pub fn scroll_pages(&mut self, delta: i16)
        ensures
            final(self).wf(),
            *final(self) == old(self).paged(delta as int),
    {
        let lines: i32 = delta as i32 * 15;
        let lines: i16 = if lines > 32767 {
            32767
        } else if lines < -32768 {
            -32768
        } else {
            lines as i16
        };
        self.scroll_lines(lines);
    }

    pub fn scroll_to_top(&mut self)
        ensures
            final(self).wf(),
            *final(self) == old(self).scrolled_to(0),
    {
        self.scroll = 0;
    }

    pub fn scroll_to_bottom(&mut self)
        ensures
            final(self).wf(),
            *final(self) == old(self).scrolled_to(old(self).bottom()),
    {
        self.scroll = self.max_scroll();
    }

    fn max_scroll(&self) -> (r: u16)
        ensures
            r == self.bottom(),
    {
        if self.line_count == 0 {
            0
        } else {
            self.line_count - 1
        }
    }
}

// ---------------------------------------------------------------------
// Laws
// ---------------------------------------------------------------------
/// Scrolling never leaves the document, whatever the stride.
pub proof fn law_scrolling_clamps_to_both_ends(view: DocView, delta: int)
    ensures
        view.scrolled(delta).wf(),
        delta >= view.bottom() ==> view.scrolled(delta) == view.scrolled_to(view.bottom()),
        delta <= -(view.scroll as int) ==> view.scrolled(delta) == view.scrolled_to(0),
{
}

/// A line as it stands after preparation: with a hard break outside a
/// code fence, unchanged inside one.
pub open spec fn prepared_lines(list: Seq<Seq<char>>, in_fence: bool) -> Seq<Seq<char>>
    decreases list.len(),
{
    if list.len() == 0 {
        Seq::empty()
    } else {
        let line = list[0];
        let inside = if is_fence(line) {
            !in_fence
        } else {
            in_fence
        };
        seq![
            if !inside && line.len() > 0 {
                line + "  "@
            } else {
                line
            },
        ] + prepared_lines(list.drop_first(), inside)
    }
}

/// No line ends in a carriage return, which a line feed behind it would
/// swallow.
pub open spec fn no_line_returns(list: Seq<Seq<char>>) -> bool {
    forall|i: int|
        0 <= i < list.len() && (#[trigger] list[i]).len() > 0 ==> list[i].last() != '\r'
}

proof fn lemma_prepared_lines(list: Seq<Seq<char>>, in_fence: bool)
    requires
        forall|i: int, j: int|
            0 <= i < list.len() && 0 <= j < list[i].len() ==> #[trigger] list[i][j] != '\n',
        no_line_returns(prepared_lines(list, in_fence)),
    ensures
        lines(hard_broken(list, in_fence)) == prepared_lines(list, in_fence),
        prepared_lines(list, in_fence).len() == list.len(),
        forall|i: int|
            0 <= i < list.len() ==> {
                let line = #[trigger] prepared_lines(list, in_fence)[i];
                line == list[i] || line == list[i] + "  "@
            },
    decreases list.len(),
{
    reveal_strlit("  \n");
    reveal_strlit("\n");
    reveal_strlit("  ");
    if list.len() == 0 {
        assert(hard_broken(list, in_fence) =~= Seq::empty());
    } else {
        let line = list[0];
        let inside = if is_fence(line) {
            !in_fence
        } else {
            in_fence
        };
        let rest = list.drop_first();
        assert forall|i: int, j: int|
            0 <= i < rest.len() && 0 <= j < rest[i].len() implies #[trigger] rest[i][j] != '\n' by {
            assert(rest[i] == list[i + 1]);
            assert(list[i + 1][j] != '\n');
        }
        let all = prepared_lines(list, in_fence);
        let others = prepared_lines(rest, inside);
        assert forall|i: int|
            0 <= i < others.len() && (#[trigger] others[i]).len() > 0 implies others[i].last()
            != '\r' by {
            assert(others[i] == all[i + 1]);
        }
        lemma_prepared_lines(rest, inside);
        let tail = hard_broken(rest, inside);
        let front = if !inside && line.len() > 0 {
            line + "  "@
        } else {
            line
        };
        assert forall|j: int| 0 <= j < front.len() implies #[trigger] front[j] != '\n' by {
            if j < line.len() {
                assert(list[0][j] != '\n');
            }
        }
        assert(all[0] == front);
        assert(hard_broken(list, in_fence) =~= front + seq!['\n'] + tail);
        crate::text::lemma_line_before(front, tail);
        assert(all =~= seq![front] + others);
        assert forall|i: int| 0 <= i < list.len() implies ({
            let l = #[trigger] all[i];
            l == list[i] || l == list[i] + "  "@
        }) by {
            if i > 0 {
                assert(all[i] == others[i - 1]);
                assert(rest[i - 1] == list[i]);
            }
        }
    }
}

/// Preparing a document keeps its layout: every authored line is still a
/// line of its own, at most with a hard break added. (A line that still
/// ends in a carriage return when its own line ending is taken off loses
/// it unless a hard break follows; such texts are left out.)
pub proof fn law_authored_lines_are_kept(text: Seq<char>)
    requires
        no_line_returns(prepared_lines(lines(text), false)),
    ensures
        ({
            let before = lines(text);
            let after = lines(hard_broken(before, false));
            &&& after.len() == before.len()
            &&& forall|i: int|
                0 <= i < before.len() ==> #[trigger] after[i] == before[i] || after[i]
                    == before[i] + "  "@
        }),
{
    let list = lines(text);
    assert forall|i: int, j: int|
        0 <= i < list.len() && 0 <= j < list[i].len() implies #[trigger] list[i][j] != '\n' by {
        crate::text::law_lines_hold_no_line_feed(text, i);
    }
    lemma_prepared_lines(list, false);
}

/// Lines inside a code fence keep their exact text.
pub proof fn law_fenced_lines_are_untouched(list: Seq<Seq<char>>, i: int)
    requires
        0 <= i < list.len(),
        forall|k: int| 0 <= k <= i ==> !is_fence(#[trigger] list[k]),
    ensures
        prepared_lines(list, true).len() > i,
        prepared_lines(list, true)[i] == list[i],
    decreases i,
{
    let rest = list.drop_first();
    assert(!is_fence(list[0]));
    if i > 0 {
        assert forall|k: int| 0 <= k <= i - 1 implies !is_fence(#[trigger] rest[k]) by {
            assert(rest[k] == list[k + 1]);
        }
        law_fenced_lines_are_untouched(rest, i - 1);
        assert(prepared_lines(list, true)[i] == prepared_lines(rest, true)[i - 1]);
    }
}

} // verus!
