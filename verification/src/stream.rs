//! Splitting a whole stream in memory, and what holds of every split.
use crate::markers::LineKind;
use crate::markers::Markers;
use crate::names::lemma_output_names_distinct;
use crate::names::output_name;
use crate::splitter::line_record;
use crate::splitter::step_action;
use crate::splitter::Action;
use crate::splitter::ActionView;
use crate::splitter::Splitter;
use crate::splitter::SplitterView;
use vstd::prelude::*;
use vstd::string::*;

verus! {

/// An output file: its name and all that was written to it.
#[derive(Debug, PartialEq, Eq)]
pub struct OutputFile {
    /// The file's name.
    pub name: String,
    /// The file's content.
    pub text: String,
}

/// An `OutputFile` as a value of specifications.
pub struct OutputFileView {
    /// The file's name.
    pub name: Seq<char>,
    /// The file's content.
    pub text: Seq<char>,
}

impl View for OutputFile {
    type V = OutputFileView;

    open spec fn view(&self) -> OutputFileView {
        OutputFileView { name: self.name@, text: self.text@ }
    }
}

impl DeepView for OutputFile {
    type V = OutputFileView;

    open spec fn deep_view(&self) -> OutputFileView {
        self@
    }
}

/// The output files after `action`, given the files before it. Each file
/// that is opened comes behind the others, and what is written goes to the
/// file that was opened last.
pub open spec fn apply_action(
    files: Seq<OutputFileView>,
    action: ActionView,
) -> Seq<OutputFileView> {
    match action {
        ActionView::Open { name } => files.push(OutputFileView { name, text: Seq::empty() }),
        ActionView::Close => files,
        ActionView::OpenAndWrite { name, text } => files.push(OutputFileView { name, text }),
        ActionView::Write { text } => files.update(
            files.len() - 1,
            OutputFileView { name: files.last().name, text: files.last().text + text },
        ),
    }
}

/// Carries out an action on output files that are held in memory. A write
/// needs a file to write to.
pub fn perform(files: &mut Vec<OutputFile>, action: Action)
    requires
        action is Write ==> old(files).len() > 0,
    ensures
        final(files).deep_view() == apply_action(old(files).deep_view(), action@),
{
    match action {
        Action::Open { name } => {
            files.push(OutputFile { name, text: String::new() });
        },
        Action::Close => {},
        Action::OpenAndWrite { name, text } => {
            files.push(OutputFile { name, text });
        },
        Action::Write { text } => {
            let mut last = files.pop().unwrap();
            last.text.append(text.as_str());
            files.push(last);
        },
    }
    assert(files.deep_view() =~= apply_action(old(files).deep_view(), action@));
}

/// How far a stream has been split: the documents found so far, each as its
/// content lines, and whether the last of them is still open.
pub struct Progress {
    /// The documents, in the order in which they were opened.
    pub docs: Seq<Seq<Seq<char>>>,
    /// Whether the last document still takes lines.
    pub open: bool,
}

/// The progress after a line `line` of kind `kind`.
pub open spec fn advance(p: Progress, kind: LineKind, line: Seq<char>) -> Progress {
    match kind {
        LineKind::DocStart => Progress { docs: p.docs.push(Seq::empty()), open: true },
        LineKind::DocEnd => Progress { docs: p.docs, open: false },
        LineKind::Content => if p.open {
            Progress {
                docs: p.docs.update(p.docs.len() - 1, p.docs.last().push(line)),
                open: true,
            }
        } else {
            Progress { docs: p.docs.push(seq![line]), open: true }
        },
    }
}

/// The progress after all of `lines`, from the first line on.
pub open spec fn progress(markers: Markers, lines: Seq<Seq<char>>) -> Progress
    decreases lines.len(),
{
    if lines.len() == 0 {
        Progress { docs: Seq::empty(), open: false }
    } else {
        advance(
            progress(markers, lines.drop_last()),
            markers.kind_of(lines.last()),
            lines.last(),
        )
    }
}

/// The documents of a stream, in order, each as its content lines.
pub open spec fn split_docs(markers: Markers, lines: Seq<Seq<char>>) -> Seq<Seq<Seq<char>>> {
    progress(markers, lines).docs
}

/// The text of a file that holds `lines`: each line with its newline, one
/// behind the other.
pub open spec fn render(lines: Seq<Seq<char>>) -> Seq<char>
    decreases lines.len(),
{
    if lines.len() == 0 {
        Seq::empty()
    } else {
        render(lines.drop_last()) + line_record(lines.last())
    }
}

/// The output files for `docs`: document number `i` goes to the file that
/// is numbered `i`.
pub open spec fn output_files(
    basename: Seq<char>,
    extension: Seq<char>,
    docs: Seq<Seq<Seq<char>>>,
) -> Seq<OutputFileView> {
    Seq::new(
        docs.len(),
        |i: int|
            OutputFileView {
                name: output_name(basename, extension, i as nat),
                text: render(docs[i]),
            },
    )
}

/// Where a document is open, there is a document; and there are no more
/// documents than lines.
pub proof fn lemma_open_has_document(markers: Markers, lines: Seq<Seq<char>>)
    ensures
        progress(markers, lines).open ==> progress(markers, lines).docs.len() > 0,
        progress(markers, lines).docs.len() <= lines.len(),
    decreases lines.len(),
{
    if lines.len() > 0 {
        lemma_open_has_document(markers, lines.drop_last());
    }
}

proof fn lemma_advance_files(
    basename: Seq<char>,
    extension: Seq<char>,
    p: Progress,
    kind: LineKind,
    line: Seq<char>,
)
    requires
        p.open ==> p.docs.len() > 0,
    ensures
        output_files(basename, extension, advance(p, kind, line).docs) == apply_action(
            output_files(basename, extension, p.docs),
            step_action(
                SplitterView { basename, extension, count: p.docs.len(), open: p.open },
                kind,
                line,
            ),
        ),
{
    let after = advance(p, kind, line).docs;
    if kind == LineKind::Content {
        if p.open {
            let last = p.docs.last();
            assert(last.push(line).drop_last() == last);
            assert(render(last.push(line)) == render(last) + line_record(line));
        } else {
            assert(seq![line].drop_last() == Seq::<Seq<char>>::empty());
            assert(render(Seq::empty()) == Seq::<char>::empty());
            assert(render(seq![line]) =~= line_record(line));
        }
    }
    assert(output_files(basename, extension, after) =~= apply_action(
        output_files(basename, extension, p.docs),
        step_action(
            SplitterView { basename, extension, count: p.docs.len(), open: p.open },
            kind,
            line,
        ),
    ));
}

/// Splits a whole stream in memory: the output files that a run over `lines`
/// creates, in the order of their numbers, each with its full content.
pub fn split_lines(
    markers: &Markers,
    basename: &str,
    extension: &str,
    lines: &Vec<String>,
) -> (files: Vec<OutputFile>)
    ensures
        files.deep_view() == output_files(
            basename@,
            extension@,
            split_docs(*markers, lines.deep_view()),
        ),
{
    let mut splitter = Splitter::new(basename.to_owned(), extension.to_owned());
    let mut files: Vec<OutputFile> = Vec::new();
    let mut i: usize = 0;
    assert(lines.deep_view().take(0) == Seq::<Seq<char>>::empty());
    assert(files.deep_view() =~= output_files(basename@, extension@, Seq::empty()));
    while i < lines.len()
        invariant
            i <= lines.len(),
            splitter@ == (SplitterView {
                basename: basename@,
                extension: extension@,
                count: progress(*markers, lines.deep_view().take(i as int)).docs.len(),
                open: progress(*markers, lines.deep_view().take(i as int)).open,
            }),
            files.deep_view() == output_files(
                basename@,
                extension@,
                progress(*markers, lines.deep_view().take(i as int)).docs,
            ),
        decreases lines.len() - i,
    {
        let line = lines[i].as_str();
        proof {
            let all = lines.deep_view();
            let seen = all.take(i as int);
            let next = all.take(i + 1);
            assert(next.drop_last() == seen);
            assert(next.last() == line@);
            lemma_open_has_document(*markers, seen);
            lemma_advance_files(
                basename@,
                extension@,
                progress(*markers, seen),
                markers.kind_of(line@),
                line@,
            );
        }
        let action = splitter.feed(markers, line);
        perform(&mut files, action);
        i = i + 1;
    }
    assert(lines.deep_view().take(i as int) == lines.deep_view());
    files
}

/// No two output files of a run have the same name, so no file of a run is
/// replaced by a later one.
pub proof fn lemma_file_names_distinct(
    basename: Seq<char>,
    extension: Seq<char>,
    docs: Seq<Seq<Seq<char>>>,
    i: int,
    j: int,
)
    requires
        0 <= i < docs.len(),
        0 <= j < docs.len(),
        i != j,
    ensures
        output_files(basename, extension, docs)[i].name != output_files(
            basename,
            extension,
            docs,
        )[j].name,
{
    lemma_output_names_distinct(basename, extension, i as nat, j as nat);
}

/// Every line of `lines` is a content line.
pub open spec fn all_content(markers: Markers, lines: Seq<Seq<char>>) -> bool {
    forall|i: int| 0 <= i < lines.len() ==> markers.kind_of(#[trigger] lines[i])
        == LineKind::Content
}

/// The test that picks the content lines of a stream.
pub open spec fn is_content(markers: Markers) -> spec_fn(Seq<char>) -> bool {
    |line: Seq<char>| markers.kind_of(line) == LineKind::Content
}

/// The content lines of a stream, in order: the stream without its markers.
pub open spec fn content_lines(markers: Markers, lines: Seq<Seq<char>>) -> Seq<Seq<char>> {
    lines.filter(is_content(markers))
}

/// A stream that holds `docs`: each document behind a start marker, with no
/// end markers.
pub open spec fn rejoin(start_line: Seq<char>, docs: Seq<Seq<Seq<char>>>) -> Seq<Seq<char>>
    decreases docs.len(),
{
    if docs.len() == 0 {
        Seq::empty()
    } else {
        rejoin(start_line, docs.drop_last()) + seq![start_line] + docs.last()
    }
}

/// An empty stream holds no document, and no output file is created for it.
pub proof fn lemma_empty_stream(markers: Markers, basename: Seq<char>, extension: Seq<char>)
    ensures
        split_docs(markers, Seq::empty()).len() == 0,
        output_files(basename, extension, split_docs(markers, Seq::empty())).len() == 0,
{
}

/// Content lines behind a stream go to one document: to the open one, or to
/// a new one where none is open.
pub proof fn lemma_content_run(markers: Markers, before: Seq<Seq<char>>, content: Seq<Seq<char>>)
    requires
        content.len() > 0,
        all_content(markers, content),
    ensures
        ({
            let p = progress(markers, before);
            let q = progress(markers, before + content);
            &&& q.open
            &&& p.open ==> q.docs == p.docs.update(p.docs.len() - 1, p.docs.last() + content)
            &&& !p.open ==> q.docs == p.docs.push(content)
        }),
    decreases content.len(),
{
    let p = progress(markers, before);
    let front = content.drop_last();
    let line = content.last();
    assert((before + content).drop_last() == before + front);
    assert((before + content).last() == line);
    assert(markers.kind_of(line) == LineKind::Content);
    lemma_open_has_document(markers, before);
    if front.len() == 0 {
        assert(before + front == before);
        assert(content == seq![line]);
        if p.open {
            assert(p.docs.last() + content == p.docs.last().push(line));
        }
    } else {
        assert(all_content(markers, front)) by {
            assert forall|i: int| 0 <= i < front.len() implies markers.kind_of(
                #[trigger] front[i],
            ) == LineKind::Content by {
                assert(front[i] == content[i]);
            }
        }
        lemma_content_run(markers, before, front);
        let mid = progress(markers, before + front);
        if p.open {
            let last = p.docs.len() - 1;
            assert((p.docs.last() + front).push(line) == p.docs.last() + content);
            assert(mid.docs.update(last, mid.docs.last().push(line)) == p.docs.update(
                last,
                p.docs.last() + content,
            ));
        } else {
            assert(front.push(line) == content);
            assert(mid.docs.update(mid.docs.len() - 1, mid.docs.last().push(line))
                == p.docs.push(content));
        }
    }
}

/// A stream that begins with content, goes on with an end marker and then
/// with content again holds exactly two documents: the lines before the end
/// marker, and the lines behind it. So two output files are created, the
/// first with the lines before the end marker and the second with the lines
/// behind it.
pub proof fn lemma_implicit_documents(
    markers: Markers,
    basename: Seq<char>,
    extension: Seq<char>,
    first: Seq<Seq<char>>,
    end_line: Seq<char>,
    second: Seq<Seq<char>>,
)
    requires
        first.len() > 0,
        all_content(markers, first),
        markers.kind_of(end_line) == LineKind::DocEnd,
        second.len() > 0,
        all_content(markers, second),
    ensures
        ({
            let docs = split_docs(markers, first + seq![end_line] + second);
            let files = output_files(basename, extension, docs);
            &&& docs == seq![first, second]
            &&& files.len() == 2
            &&& files[0].name == output_name(basename, extension, 0)
            &&& files[0].text == render(first)
            &&& files[1].name == output_name(basename, extension, 1)
            &&& files[1].text == render(second)
        }),
{
    let none = Seq::<Seq<char>>::empty();
    assert(none + first == first);
    lemma_content_run(markers, none, first);
    let closed = first + seq![end_line];
    assert(closed.drop_last() == first);
    assert(closed.last() == end_line);
    lemma_content_run(markers, closed, second);
    assert(progress(markers, first).docs == seq![first]);
    assert(seq![first].push(second) == seq![first, second]);
}

/// Every line of every document is a content line: no marker is written to
/// an output file.
pub proof fn lemma_docs_hold_content(markers: Markers, lines: Seq<Seq<char>>)
    ensures
        forall|i: int|
            0 <= i < split_docs(markers, lines).len() ==> all_content(
                markers,
                #[trigger] split_docs(markers, lines)[i],
            ),
    decreases lines.len(),
{
    if lines.len() > 0 {
        lemma_docs_hold_content(markers, lines.drop_last());
        lemma_open_has_document(markers, lines.drop_last());
        let p = progress(markers, lines.drop_last());
        let docs = split_docs(markers, lines);
        assert forall|i: int| 0 <= i < docs.len() implies all_content(
            markers,
            #[trigger] docs[i],
        ) by {
            if i < p.docs.len() {
                assert(all_content(markers, split_docs(markers, lines.drop_last())[i]));
                if docs[i] != p.docs[i] {
                    assert forall|j: int| 0 <= j < docs[i].len() implies markers.kind_of(
                        #[trigger] docs[i][j],
                    ) == LineKind::Content by {
                        if j < p.docs[i].len() {
                            assert(docs[i][j] == p.docs[i][j]);
                        }
                    }
                }
            }
        }
    }
}

/// Splitting loses no content and adds none: the documents, one behind the
/// other, are the content lines of the stream in their order.
pub proof fn lemma_content_preserved(markers: Markers, lines: Seq<Seq<char>>)
    ensures
        split_docs(markers, lines).flatten() == content_lines(markers, lines),
    decreases lines.len(),
{
    reveal(Seq::filter);
    let docs = split_docs(markers, lines);
    docs.lemma_flatten_and_flatten_alt_are_equivalent();
    if lines.len() > 0 {
        let front = lines.drop_last();
        let line = lines.last();
        let p = progress(markers, front);
        lemma_content_preserved(markers, front);
        lemma_open_has_document(markers, front);
        p.docs.lemma_flatten_and_flatten_alt_are_equivalent();
        if markers.kind_of(line) == LineKind::Content {
            if p.open {
                assert(docs.drop_last() == p.docs.drop_last());
                assert(docs.flatten_alt() == p.docs.flatten_alt().push(line));
            } else {
                assert(docs.drop_last() == p.docs);
                assert(docs.flatten_alt() == p.docs.flatten_alt().push(line));
            }
        } else if markers.kind_of(line) == LineKind::DocStart {
            assert(docs.drop_last() == p.docs);
            assert(docs.flatten_alt() == p.docs.flatten_alt());
        }
    }
}

/// Documents that are written out behind start markers are found again:
/// splitting the joined stream gives the documents back.
pub proof fn lemma_rejoin_splits_back(
    markers: Markers,
    start_line: Seq<char>,
    docs: Seq<Seq<Seq<char>>>,
)
    requires
        markers.kind_of(start_line) == LineKind::DocStart,
        forall|i: int| 0 <= i < docs.len() ==> all_content(markers, #[trigger] docs[i]),
    ensures
        split_docs(markers, rejoin(start_line, docs)) == docs,
    decreases docs.len(),
{
    if docs.len() > 0 {
        let front = docs.drop_last();
        let doc = docs.last();
        assert forall|i: int| 0 <= i < front.len() implies all_content(
            markers,
            #[trigger] front[i],
        ) by {
            assert(front[i] == docs[i]);
        }
        lemma_rejoin_splits_back(markers, start_line, front);
        let started = rejoin(start_line, front) + seq![start_line];
        assert(started.drop_last() == rejoin(start_line, front));
        assert(started.last() == start_line);
        let empty = Seq::<Seq<char>>::empty();
        assert(progress(markers, started).docs == front.push(empty));
        if doc.len() == 0 {
            assert(started + doc == started);
            assert(doc =~= empty);
            assert(front.push(empty) =~= docs);
        } else {
            lemma_content_run(markers, started, doc);
            assert(empty + doc == doc);
            assert(front.push(empty).update(front.len() as int, doc) == docs);
        }
    }
}

/// The round trip: where the documents of a stream are joined again, each
/// behind a start marker, the joined stream holds the same documents and the
/// same content lines as the stream they were split from.
pub proof fn lemma_round_trip(markers: Markers, start_line: Seq<char>, lines: Seq<Seq<char>>)
    requires
        markers.kind_of(start_line) == LineKind::DocStart,
    ensures
        split_docs(markers, rejoin(start_line, split_docs(markers, lines))) == split_docs(
            markers,
            lines,
        ),
        content_lines(markers, rejoin(start_line, split_docs(markers, lines))) == content_lines(
            markers,
            lines,
        ),
{
    let docs = split_docs(markers, lines);
    lemma_docs_hold_content(markers, lines);
    lemma_rejoin_splits_back(markers, start_line, docs);
    lemma_content_preserved(markers, lines);
    lemma_content_preserved(markers, rejoin(start_line, docs));
}

/// The texts of `files`, one behind the other in the order of the files.
pub open spec fn joined_text(files: Seq<OutputFileView>) -> Seq<char>
    decreases files.len(),
{
    if files.len() == 0 {
        Seq::empty()
    } else {
        joined_text(files.drop_last()) + files.last().text
    }
}

/// The text of lines that stand one behind the other is the text of the
/// first lines followed by the text of the others.
pub proof fn lemma_render_add(first: Seq<Seq<char>>, second: Seq<Seq<char>>)
    ensures
        render(first + second) == render(first) + render(second),
    decreases second.len(),
{
    if second.len() == 0 {
        assert(first + second == first);
    } else {
        assert((first + second).drop_last() == first + second.drop_last());
        lemma_render_add(first, second.drop_last());
    }
}

/// What the output files hold, read in the order of their numbers, is the
/// text of the stream's content lines: each content line once, in its place,
/// with its newline, and nothing else.
pub proof fn lemma_output_is_the_content(
    markers: Markers,
    basename: Seq<char>,
    extension: Seq<char>,
    lines: Seq<Seq<char>>,
)
    ensures
        joined_text(output_files(basename, extension, split_docs(markers, lines))) == render(
            content_lines(markers, lines),
        ),
{
    let docs = split_docs(markers, lines);
    lemma_joined_text(basename, extension, docs);
    docs.lemma_flatten_and_flatten_alt_are_equivalent();
    lemma_content_preserved(markers, lines);
}

proof fn lemma_joined_text(basename: Seq<char>, extension: Seq<char>, docs: Seq<Seq<Seq<char>>>)
    ensures
        joined_text(output_files(basename, extension, docs)) == render(docs.flatten_alt()),
    decreases docs.len(),
{
    if docs.len() > 0 {
        let files = output_files(basename, extension, docs);
        assert(files.drop_last() == output_files(basename, extension, docs.drop_last()));
        lemma_joined_text(basename, extension, docs.drop_last());
        lemma_render_add(docs.drop_last().flatten_alt(), docs.last());
    }
}

} // verus!
