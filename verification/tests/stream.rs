use yamlsplit::markers::Markers;
use yamlsplit::splitter::Action;
use yamlsplit::stream::perform;
use yamlsplit::stream::split_lines;
use yamlsplit::stream::OutputFile;

fn file(name: &str, text: &str) -> OutputFile {
    OutputFile { name: name.to_string(), text: text.to_string() }
}

fn lines_of(text: &str) -> Vec<String> {
    text.split_terminator('\n').map(|line| line.to_string()).collect()
}

fn split(base: &str, ext: &str, text: &str) -> Vec<OutputFile> {
    let markers = Markers::new().unwrap();
    split_lines(&markers, base, ext, &lines_of(text))
}

#[test]
fn perform_open_adds_an_empty_file() {
    let mut files = vec![file("a-0.y", "x\n")];
    perform(&mut files, Action::Open { name: "a-1.y".to_string() });
    assert_eq!(files, vec![file("a-0.y", "x\n"), file("a-1.y", "")]);
}

#[test]
fn perform_close_changes_no_file() {
    let mut files = vec![file("a-0.y", "x\n")];
    perform(&mut files, Action::Close);
    assert_eq!(files, vec![file("a-0.y", "x\n")]);
    let mut none: Vec<OutputFile> = Vec::new();
    perform(&mut none, Action::Close);
    assert!(none.is_empty());
}

#[test]
fn perform_write_appends_to_the_last_file() {
    let mut files = vec![file("a-0.y", "x\n"), file("a-1.y", "y\n")];
    perform(&mut files, Action::Write { text: "z\n".to_string() });
    assert_eq!(files, vec![file("a-0.y", "x\n"), file("a-1.y", "y\nz\n")]);
}

#[test]
fn perform_open_and_write_adds_a_file_with_the_text() {
    let mut files: Vec<OutputFile> = Vec::new();
    perform(
        &mut files,
        Action::OpenAndWrite { name: "a-0.y".to_string(), text: "x\n".to_string() },
    );
    assert_eq!(files, vec![file("a-0.y", "x\n")]);
}

#[test]
fn empty_stream_creates_no_file() {
    assert_eq!(split("foo", "yaml", ""), Vec::<OutputFile>::new());
    let markers = Markers::new().unwrap();
    assert!(split_lines(&markers, "foo", "yaml", &Vec::new()).is_empty());
}

#[test]
fn stream_of_end_markers_creates_no_file() {
    assert!(split("foo", "yaml", "...\n...\n... \n").is_empty());
}

#[test]
fn two_documents_with_start_markers() {
    assert_eq!(
        split("stdin", "yaml", "---\na: 1\n---\nb: 2\n...\n"),
        vec![file("stdin-0.yaml", "a: 1\n"), file("stdin-1.yaml", "b: 2\n")]
    );
}

#[test]
fn content_then_end_marker_then_content_gives_two_files() {
    assert_eq!(
        split("foo", "yaml", "a: 1\nb: 2\n...\nc: 3\nd: 4\n"),
        vec![file("foo-0.yaml", "a: 1\nb: 2\n"), file("foo-1.yaml", "c: 3\nd: 4\n")]
    );
}

#[test]
fn first_document_may_omit_the_start_marker() {
    assert_eq!(
        split("foo", "yaml", "a: 1\n---\nb: 2\n"),
        vec![file("foo-0.yaml", "a: 1\n"), file("foo-1.yaml", "b: 2\n")]
    );
}

#[test]
fn start_marker_alone_creates_an_empty_file() {
    assert_eq!(split("foo", "yaml", "---\n"), vec![file("foo-0.yaml", "")]);
    assert_eq!(
        split("foo", "yaml", "---\n---\n---\nx\n"),
        vec![file("foo-0.yaml", ""), file("foo-1.yaml", ""), file("foo-2.yaml", "x\n")]
    );
}

#[test]
fn start_marker_after_end_marker_opens_one_file_only() {
    assert_eq!(
        split("foo", "yaml", "---\na\n...\n---\nb\n...\n"),
        vec![file("foo-0.yaml", "a\n"), file("foo-1.yaml", "b\n")]
    );
}

#[test]
fn markers_may_trail_spaces_but_nothing_else() {
    assert_eq!(
        split("foo", "yaml", "---  \na\n...   \nb\n--- c\n... d\n ---\n"),
        vec![
            file("foo-0.yaml", "a\n"),
            file("foo-1.yaml", "b\n--- c\n... d\n ---\n")
        ]
    );
}

#[test]
fn blank_lines_are_content() {
    assert_eq!(
        split("foo", "yaml", "\n---\n\n\n"),
        vec![file("foo-0.yaml", "\n"), file("foo-1.yaml", "\n\n")]
    );
}

#[test]
fn lines_are_written_as_they_are_with_one_newline() {
    let markers = Markers::new().unwrap();
    let lines = vec!["---\r".to_string(), "  é: ü ".to_string(), "...".to_string()];
    assert_eq!(
        split_lines(&markers, "f", "y", &lines),
        vec![file("f-0.y", "---\r\n  é: ü \n")]
    );
}

#[test]
fn carriage_returns_stay_on_their_lines() {
    assert_eq!(
        split("stdin", "yaml", "---\r\na: 1\r\n...\r\nb: 2\r\n"),
        vec![file("stdin-0.yaml", "---\r\na: 1\r\n...\r\nb: 2\r\n")]
    );
}

#[test]
fn files_are_numbered_from_zero_in_order() {
    let mut text = String::new();
    for k in 0..12 {
        text.push_str("---\n");
        text.push_str(&format!("doc: {}\n", k));
    }
    let files = split("dir/in.put", "yml", &text);
    assert_eq!(files.len(), 12);
    for (k, f) in files.iter().enumerate() {
        assert_eq!(f.name, format!("dir/in.put-{}.yml", k));
        assert_eq!(f.text, format!("doc: {}\n", k));
    }
}

#[test]
fn file_names_do_not_repeat() {
    let files = split("x", "y", &"---\n".repeat(150));
    assert_eq!(files.len(), 150);
    for i in 0..files.len() {
        for j in 0..i {
            assert_ne!(files[i].name, files[j].name);
        }
    }
}

#[test]
fn output_holds_the_content_lines_in_order() {
    let text = "a\nb\n---\nc\n...\n...\nd\n--- \n---\ne\nf\n... \n";
    let files = split("foo", "yaml", text);
    let written: String = files.iter().map(|f| f.text.as_str()).collect();
    assert_eq!(written, "a\nb\nc\nd\ne\nf\n");
    assert_eq!(
        files,
        vec![
            file("foo-0.yaml", "a\nb\n"),
            file("foo-1.yaml", "c\n"),
            file("foo-2.yaml", "d\n"),
            file("foo-3.yaml", ""),
            file("foo-4.yaml", "e\nf\n"),
        ]
    );
}

#[test]
fn joining_the_files_behind_start_markers_splits_back() {
    let text = "a\nb\n---\nc\n...\n...\nd\n--- \n---\ne\nf\n... \n";
    let files = split("foo", "yaml", text);
    let mut joined = String::new();
    for f in files.iter() {
        joined.push_str("---\n");
        joined.push_str(&f.text);
    }
    assert_eq!(joined, "---\na\nb\n---\nc\n---\nd\n---\n---\ne\nf\n");
    assert_eq!(split("foo", "yaml", &joined), files);
}
