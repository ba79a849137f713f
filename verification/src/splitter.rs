//! The splitter: which output file each line of a stream goes to.
//!
//! Lines are handed over one by one, without their line ending. A carriage
//! return that is still on a line is part of it, so such a line is content
//! even where it would otherwise be a marker.
use crate::markers::LineKind;
use crate::markers::Markers;
use crate::names::open_new_file_for_output;
use crate::names::output_name;
use vstd::prelude::*;
use vstd::string::*;

verus! {

/// A line as it stands in an output file: the line, then one newline.
pub open spec fn line_record(line: Seq<char>) -> Seq<char> {
    line.push('\n')
}

/// Builds the text that is written for a content line.
pub fn output_line(line: &str) -> (text: String)
    ensures
        text@ == line_record(line@),
{
    proof {
        reveal_strlit("\n");
    }
    let mut text = line.to_owned();
    text.append("\n");
    assert("\n"@ =~= seq!['\n']);
    text
}

/// What is to be done with the output files for one line of input. At most
/// one output file is open at a time: opening one closes the one before it.
#[derive(Debug, PartialEq, Eq)]
pub enum Action {
    /// Create the file `name`, empty, and keep it open.
    Open { name: String },
    /// Close the open file, if there is one.
    Close,
    /// Create the file `name`, keep it open and write `text` to it.
    OpenAndWrite { name: String, text: String },
    /// Write `text` to the open file.
    Write { text: String },
}

/// An `Action` as a value of specifications: the same cases, with the
/// strings as sequences of characters.
pub enum ActionView {
    /// Create the file `name`, empty, and keep it open.
    Open { name: Seq<char> },
    /// Close the open file, if there is one.
    Close,
    /// Create the file `name`, keep it open and write `text` to it.
    OpenAndWrite { name: Seq<char>, text: Seq<char> },
    /// Write `text` to the open file.
    Write { text: Seq<char> },
}

impl View for Action {
    type V = ActionView;

    open spec fn view(&self) -> ActionView {
        match *self {
            Action::Open { name } => ActionView::Open { name: name@ },
            Action::Close => ActionView::Close,
            Action::OpenAndWrite { name, text } => ActionView::OpenAndWrite {
                name: name@,
                text: text@,
            },
            Action::Write { text } => ActionView::Write { text: text@ },
        }
    }
}

/// The state of a splitter as a value of specifications.
pub struct SplitterView {
    /// The base name of every output file.
    pub basename: Seq<char>,
    /// The extension of every output file.
    pub extension: Seq<char>,
    /// How many output files have been opened so far.
    pub count: nat,
    /// Whether an output file is open.
    pub open: bool,
}

/// Whether a line of kind `kind` opens a new output file in state `s`: a
/// start marker always does, a content line where no file is open.
pub open spec fn opens_file(s: SplitterView, kind: LineKind) -> bool {
    kind == LineKind::DocStart || (kind == LineKind::Content && !s.open)
}

/// The state after a line of kind `kind`.
pub open spec fn step_state(s: SplitterView, kind: LineKind) -> SplitterView {
    SplitterView {
        basename: s.basename,
        extension: s.extension,
        count: if opens_file(s, kind) {
            s.count + 1
        } else {
            s.count
        },
        open: kind != LineKind::DocEnd,
    }
}

/// What a line `line` of kind `kind` asks for in state `s`.
pub open spec fn step_action(s: SplitterView, kind: LineKind, line: Seq<char>) -> ActionView {
    let name = output_name(s.basename, s.extension, s.count);
    match kind {
        LineKind::DocStart => ActionView::Open { name },
        LineKind::DocEnd => ActionView::Close,
        LineKind::Content => if s.open {
            ActionView::Write { text: line_record(line) }
        } else {
            ActionView::OpenAndWrite { name, text: line_record(line) }
        },
    }
}

/// The splitter's state between two lines: the names it gives, how many
/// output files it has opened, and whether one is open.
#[derive(Debug)]
pub struct Splitter {
    basename: String,
    extension: String,
    count: u64,
    open: bool,
}

impl View for Splitter {
    type V = SplitterView;

    closed spec fn view(&self) -> SplitterView {
        SplitterView {
            basename: self.basename@,
            extension: self.extension@,
            count: self.count as nat,
            open: self.open,
        }
    }
}

impl Splitter {
    /// A splitter before the first line: nothing opened, nothing open.
    pub fn new(basename: String, extension: String) -> (splitter: Splitter)
        ensures
            splitter@ == (SplitterView {
                basename: basename@,
                extension: extension@,
                count: 0,
                open: false,
            }),
    {
        Splitter { basename, extension, count: 0, open: false }
    }

    /// How many output files have been opened so far.
    pub fn files_opened(&self) -> (count: u64)
        ensures
            count == self@.count,
    {
        self.count
    }

    /// Whether an output file is open.
    pub fn is_open(&self) -> (open: bool)
        ensures
            open == self@.open,
    {
        self.open
    }

    /// Takes one line whose kind is known, and says what to do for it.
    ///
    /// A start marker opens a new file, also where one is open. An end marker
    /// closes. A content line is written to the open file, after opening one
    /// where none is open. The count of opened files must fit where a file
    /// is opened.
    pub fn step(&mut self, kind: LineKind, line: &str) -> (action: Action)
        requires
            opens_file(old(self)@, kind) ==> old(self)@.count < u64::MAX,
        ensures
            final(self)@ == step_state(old(self)@, kind),
            action@ == step_action(old(self)@, kind, line@),
    {
        match kind {
            LineKind::DocStart => {
                let name = open_new_file_for_output(
                    self.basename.as_str(),
                    self.extension.as_str(),
                    &mut self.count,
                );
                self.open = true;
                Action::Open { name }
            },
            LineKind::DocEnd => {
                self.open = false;
                Action::Close
            },
            LineKind::Content => {
                let text = output_line(line);
                if self.open {
                    Action::Write { text }
                } else {
                    let name = open_new_file_for_output(
                        self.basename.as_str(),
                        self.extension.as_str(),
                        &mut self.count,
                    );
                    self.open = true;
                    Action::OpenAndWrite { name, text }
                }
            },
        }
    }

    /// Takes one line, classifies it with `markers`, and says what to do for
    /// it. The count of opened files must fit where the line opens a file;
    /// it does whenever fewer than `u64::MAX` files have been opened.
    pub fn feed(&mut self, markers: &Markers, line: &str) -> (action: Action)
        requires
            opens_file(old(self)@, markers.kind_of(line@)) ==> old(self)@.count < u64::MAX,
        ensures
            final(self)@ == step_state(old(self)@, markers.kind_of(line@)),
            action@ == step_action(old(self)@, markers.kind_of(line@), line@),
    {
        let kind = markers.classify_line(line);
        self.step(kind, line)
    }
}

/// The state after lines of the kinds `kinds`, taken one after the other
/// from state `s`.
pub open spec fn state_after(s: SplitterView, kinds: Seq<LineKind>) -> SplitterView
    decreases kinds.len(),
{
    if kinds.len() == 0 {
        s
    } else {
        step_state(state_after(s, kinds.drop_last()), kinds.last())
    }
}

/// The names of the files that are opened for lines of the kinds `kinds`,
/// taken from state `s`, in the order in which they are opened.
pub open spec fn names_opened(s: SplitterView, kinds: Seq<LineKind>) -> Seq<Seq<char>>
    decreases kinds.len(),
{
    if kinds.len() == 0 {
        Seq::empty()
    } else {
        let names = names_opened(s, kinds.drop_last());
        match step_action(state_after(s, kinds.drop_last()), kinds.last(), Seq::empty()) {
            ActionView::Open { name } => names.push(name),
            ActionView::OpenAndWrite { name, text } => names.push(name),
            _ => names,
        }
    }
}

/// The output files are numbered in the order in which they are opened,
/// without a gap: the file that is opened as number `k` of a run carries the
/// number that the count stood at before the run, plus `k`; and the count
/// goes up by one for each file that is opened.
pub proof fn lemma_names_count_up(s: SplitterView, kinds: Seq<LineKind>)
    ensures
        state_after(s, kinds).basename == s.basename,
        state_after(s, kinds).extension == s.extension,
        state_after(s, kinds).count == s.count + names_opened(s, kinds).len(),
        forall|k: int|
            0 <= k < names_opened(s, kinds).len() ==> #[trigger] names_opened(s, kinds)[k]
                == output_name(s.basename, s.extension, (s.count + k) as nat),
    decreases kinds.len(),
{
    if kinds.len() > 0 {
        lemma_names_count_up(s, kinds.drop_last());
        let names = names_opened(s, kinds);
        let before = names_opened(s, kinds.drop_last());
        assert forall|k: int| 0 <= k < names.len() implies #[trigger] names[k] == output_name(
            s.basename,
            s.extension,
            (s.count + k) as nat,
        ) by {
            if k < before.len() {
                assert(names[k] == before[k]);
            }
        }
    }
}

} // verus!
