use std::cell::RefCell;
use std::collections::BTreeMap;

use rrgen::directive::{FrontMatter, FrontMatterFields};
use rrgen::document::parse_template;
use rrgen::driver::{generate, FsDriver, Printer};
use rrgen::error::Error;
use rrgen::injection::{Injection, Placement};
use rrgen::machine::{Action, Document, Event, GenResult, Notice, Progress};
use rrgen::pattern::Pattern;

struct MemoryFs {
    files: RefCell<BTreeMap<String, String>>,
    writes: RefCell<Vec<String>>,
    globs: BTreeMap<String, usize>,
    read_only: bool,
}

impl MemoryFs {
    fn with(files: &[(&str, &str)]) -> MemoryFs {
        MemoryFs {
            files: RefCell::new(
                files.iter().map(|(p, c)| (p.to_string(), c.to_string())).collect(),
            ),
            writes: RefCell::new(Vec::new()),
            globs: BTreeMap::new(),
            read_only: false,
        }
    }

    fn text(&self, path: &str) -> Option<String> {
        self.files.borrow().get(path).cloned()
    }

    fn written(&self) -> Vec<String> {
        self.writes.borrow().clone()
    }
}

impl FsDriver for MemoryFs {
    fn write_file(&self, path: &str, content: &str) -> Result<(), Error> {
        if self.read_only {
            return Err(Error::Storage(format!("cannot write {}", path)));
        }
        self.writes.borrow_mut().push(path.to_string());
        self.files.borrow_mut().insert(path.to_string(), content.to_string());
        Ok(())
    }

    fn read_file(&self, path: &str) -> Result<String, Error> {
        match self.files.borrow().get(path) {
            Some(text) => Ok(text.clone()),
            None => Err(Error::Storage(format!("cannot read {}", path))),
        }
    }

    fn path_exists(&self, path: &str) -> bool {
        self.files.borrow().contains_key(path)
    }

    fn count_glob(&self, pattern: &str) -> Result<usize, Error> {
        match self.globs.get(pattern) {
            Some(n) => Ok(*n),
            None => Err(Error::Storage(format!("bad glob {}", pattern))),
        }
    }
}

struct Recorder {
    lines: RefCell<Vec<String>>,
}

impl Recorder {
    fn new() -> Recorder {
        Recorder { lines: RefCell::new(Vec::new()) }
    }

    fn seen(&self) -> Vec<String> {
        self.lines.borrow().clone()
    }
}

impl Printer for Recorder {
    fn overwrite_file(&self, file_to: &str) {
        self.lines.borrow_mut().push(format!("overwritten {}", file_to));
    }

    fn skip_exists(&self, file_to: &str) {
        self.lines.borrow_mut().push(format!("skipped {}", file_to));
    }

    fn add_file(&self, file_to: &str) {
        self.lines.borrow_mut().push(format!("added {}", file_to));
    }

    fn injected(&self, file_to: &str) {
        self.lines.borrow_mut().push(format!("injected {}", file_to));
    }

    fn unchanged(&self, file_to: &str) {
        self.lines.borrow_mut().push(format!("unchanged {}", file_to));
    }
}

fn front(to: &str) -> FrontMatter {
    FrontMatter {
        to: to.to_string(),
        skip_exists: false,
        skip_glob: None,
        message: None,
        injections: Vec::new(),
    }
}

fn injection(into: &str, content: &str, placement: Option<Placement>) -> Injection {
    Injection {
        into: into.to_string(),
        content: content.to_string(),
        inline: false,
        skip_if: None,
        placement,
    }
}

fn message_of(result: GenResult) -> Option<String> {
    match result {
        GenResult::Generated { message } => message,
        GenResult::Skipped => panic!("a run over parts never ends as skipped"),
    }
}

#[test]
fn a_body_is_written_and_its_message_returned() {
    let fs = MemoryFs::with(&[]);
    let printer = Recorder::new();
    let mut directive = front("out.txt");
    directive.message = Some("done".to_string());
    let doc: Document = vec![(directive, "hello".to_string())];
    let result = generate(&fs, &printer, None, &doc).unwrap();
    assert_eq!(message_of(result), Some("done".to_string()));
    assert_eq!(fs.text("out.txt"), Some("hello".to_string()));
    assert_eq!(printer.seen(), vec!["added out.txt".to_string()]);
}

#[test]
fn a_document_without_parts_touches_nothing() {
    let fs = MemoryFs::with(&[("a", "1")]);
    let printer = Recorder::new();
    let doc: Document = Vec::new();
    let result = generate(&fs, &printer, None, &doc).unwrap();
    assert_eq!(message_of(result), None);
    assert!(fs.written().is_empty());
    assert!(printer.seen().is_empty());
}

#[test]
fn an_existing_target_is_overwritten_without_skip_exists() {
    let fs = MemoryFs::with(&[("out.txt", "old")]);
    let printer = Recorder::new();
    let doc: Document = vec![(front("out.txt"), "new".to_string())];
    generate(&fs, &printer, None, &doc).unwrap();
    assert_eq!(fs.text("out.txt"), Some("new".to_string()));
    assert_eq!(printer.seen(), vec!["overwritten out.txt".to_string()]);
}

#[test]
fn skip_exists_leaves_an_existing_target_and_runs_no_injection() {
    let fs = MemoryFs::with(&[("out.txt", "old"), ("other.txt", "x")]);
    let printer = Recorder::new();
    let mut directive = front("out.txt");
    directive.skip_exists = true;
    directive.message = Some("not shown".to_string());
    directive.injections.push(injection("other.txt", "P", Some(Placement::Append)));
    let doc: Document = vec![(directive, "new".to_string())];
    let result = generate(&fs, &printer, None, &doc).unwrap();
    assert_eq!(message_of(result), None);
    assert_eq!(fs.text("out.txt"), Some("old".to_string()));
    assert_eq!(fs.text("other.txt"), Some("x".to_string()));
    assert!(fs.written().is_empty());
    assert_eq!(printer.seen(), vec!["skipped out.txt".to_string()]);
}

#[test]
fn skip_exists_writes_a_target_that_does_not_exist() {
    let fs = MemoryFs::with(&[]);
    let printer = Recorder::new();
    let mut directive = front("out.txt");
    directive.skip_exists = true;
    let doc: Document = vec![(directive, "new".to_string())];
    generate(&fs, &printer, None, &doc).unwrap();
    assert_eq!(fs.text("out.txt"), Some("new".to_string()));
}

#[test]
fn skip_glob_with_a_match_leaves_the_part_out() {
    let mut fs = MemoryFs::with(&[]);
    fs.globs.insert("migrations/*_posts.rs".to_string(), 2);
    let printer = Recorder::new();
    let mut directive = front("out.txt");
    directive.skip_glob = Some("migrations/*_posts.rs".to_string());
    let doc: Document = vec![(directive, "new".to_string())];
    generate(&fs, &printer, None, &doc).unwrap();
    assert_eq!(fs.text("out.txt"), None);
    assert_eq!(printer.seen(), vec!["skipped out.txt".to_string()]);
}

#[test]
fn skip_glob_without_a_match_writes_the_part() {
    let mut fs = MemoryFs::with(&[]);
    fs.globs.insert("*.none".to_string(), 0);
    let printer = Recorder::new();
    let mut directive = front("out.txt");
    directive.skip_glob = Some("*.none".to_string());
    let doc: Document = vec![(directive, "new".to_string())];
    generate(&fs, &printer, None, &doc).unwrap();
    assert_eq!(fs.text("out.txt"), Some("new".to_string()));
}

#[test]
fn a_glob_that_fails_ends_the_run_with_its_error() {
    let fs = MemoryFs::with(&[]);
    let printer = Recorder::new();
    let mut directive = front("out.txt");
    directive.skip_glob = Some("[".to_string());
    let doc: Document = vec![(directive, "new".to_string())];
    assert!(matches!(generate(&fs, &printer, None, &doc), Err(Error::Storage(_))));
    assert!(fs.written().is_empty());
}

#[test]
fn injections_run_in_order_after_the_body() {
    let fs = MemoryFs::with(&[("mod.rs", "a\nb")]);
    let printer = Recorder::new();
    let mut directive = front("out.txt");
    directive.injections.push(injection("mod.rs", "first", Some(Placement::Append)));
    directive.injections.push(injection("mod.rs", "second", Some(Placement::Append)));
    let doc: Document = vec![(directive, "body".to_string())];
    generate(&fs, &printer, None, &doc).unwrap();
    assert_eq!(fs.text("mod.rs"), Some("a\nb\nfirst\nsecond".to_string()));
    assert_eq!(
        fs.written(),
        vec!["out.txt".to_string(), "mod.rs".to_string(), "mod.rs".to_string()]
    );
    assert_eq!(
        printer.seen(),
        vec![
            "added out.txt".to_string(),
            "injected mod.rs".to_string(),
            "injected mod.rs".to_string()
        ]
    );
}

#[test]
fn an_injection_may_patch_the_file_that_the_body_made() {
    let fs = MemoryFs::with(&[]);
    let printer = Recorder::new();
    let mut directive = front("out.txt");
    directive.injections.push(injection("out.txt", "top", Some(Placement::Prepend)));
    let doc: Document = vec![(directive, "body".to_string())];
    generate(&fs, &printer, None, &doc).unwrap();
    assert_eq!(fs.text("out.txt"), Some("top\nbody".to_string()));
}

#[test]
fn a_missing_injection_target_ends_the_run_and_keeps_what_was_written() {
    let fs = MemoryFs::with(&[]);
    let printer = Recorder::new();
    let mut first = front("one.txt");
    first.injections.push(injection("absent.rs", "P", Some(Placement::Append)));
    let doc: Document =
        vec![(first, "1".to_string()), (front("two.txt"), "2".to_string())];
    let result = generate(&fs, &printer, None, &doc);
    assert!(matches!(result, Err(Error::TargetMissing(into)) if into == "absent.rs"));
    assert_eq!(fs.text("one.txt"), Some("1".to_string()));
    assert_eq!(fs.text("two.txt"), None);
    assert_eq!(fs.text("absent.rs"), None);
}

#[test]
fn a_write_that_fails_ends_the_run_with_its_error() {
    let mut fs = MemoryFs::with(&[]);
    fs.read_only = true;
    let printer = Recorder::new();
    let doc: Document =
        vec![(front("one.txt"), "1".to_string()), (front("two.txt"), "2".to_string())];
    let result = generate(&fs, &printer, None, &doc);
    assert!(matches!(result, Err(Error::Storage(text)) if text == "cannot write one.txt"));
}

#[test]
fn an_injection_whose_skip_if_matches_writes_nothing() {
    let fs = MemoryFs::with(&[("mod.rs", "mod posts;\n")]);
    let printer = Recorder::new();
    let mut directive = front("out.txt");
    let mut inj = injection("mod.rs", "mod posts;", Some(Placement::Append));
    inj.skip_if = Some(Pattern::new("mod posts;").unwrap());
    directive.injections.push(inj);
    let doc: Document = vec![(directive, "body".to_string())];
    generate(&fs, &printer, None, &doc).unwrap();
    assert_eq!(fs.text("mod.rs"), Some("mod posts;\n".to_string()));
    assert_eq!(fs.written(), vec!["out.txt".to_string()]);
    assert_eq!(printer.seen(), vec!["added out.txt".to_string()]);
}

#[test]
fn an_injection_without_a_placement_writes_the_file_back_and_warns() {
    let fs = MemoryFs::with(&[("mod.rs", "a\r\nb")]);
    let printer = Recorder::new();
    let mut directive = front("out.txt");
    directive.injections.push(injection("mod.rs", "P", None));
    let doc: Document = vec![(directive, "body".to_string())];
    generate(&fs, &printer, None, &doc).unwrap();
    assert_eq!(fs.text("mod.rs"), Some("a\r\nb".to_string()));
    assert_eq!(fs.written(), vec!["out.txt".to_string(), "mod.rs".to_string()]);
    assert_eq!(
        printer.seen(),
        vec![
            "added out.txt".to_string(),
            "unchanged mod.rs".to_string(),
            "injected mod.rs".to_string()
        ]
    );
}

#[test]
fn messages_of_written_parts_are_joined_by_line_feeds() {
    let fs = MemoryFs::with(&[("skipped.txt", "old")]);
    let printer = Recorder::new();
    let mut one = front("one.txt");
    one.message = Some("first".to_string());
    let mut skipped = front("skipped.txt");
    skipped.skip_exists = true;
    skipped.message = Some("never".to_string());
    let mut empty = front("empty.txt");
    empty.message = Some(String::new());
    let silent = front("silent.txt");
    let mut two = front("two.txt");
    two.message = Some("second".to_string());
    let doc: Document = vec![
        (one, "1".to_string()),
        (skipped, "s".to_string()),
        (empty, "e".to_string()),
        (silent, "q".to_string()),
        (two, "2".to_string()),
    ];
    let result = generate(&fs, &printer, None, &doc).unwrap();
    assert_eq!(message_of(result), Some("first\nsecond".to_string()));
}

#[test]
fn a_second_run_with_skip_exists_writes_nothing() {
    let fs = MemoryFs::with(&[("mod.rs", "mod a;")]);
    let printer = Recorder::new();
    let make = || -> Document {
        let mut one = front("one.txt");
        one.skip_exists = true;
        one.message = Some("made one".to_string());
        let mut inj = injection("mod.rs", "mod one;", Some(Placement::Append));
        inj.skip_if = Some(Pattern::new("mod one;").unwrap());
        one.injections.push(inj);
        let mut two = front("two.txt");
        two.skip_exists = true;
        vec![(one, "1".to_string()), (two, "2".to_string())]
    };
    let first = generate(&fs, &printer, None, &make()).unwrap();
    assert_eq!(message_of(first), Some("made one".to_string()));
    let after_first = fs.files.borrow().clone();
    let writes_of_first = fs.written().len();
    assert_eq!(writes_of_first, 3);

    let second = generate(&fs, &printer, None, &make()).unwrap();
    assert_eq!(message_of(second), None);
    assert_eq!(*fs.files.borrow(), after_first);
    assert_eq!(fs.written().len(), writes_of_first);
}

#[test]
fn paths_are_resolved_under_the_working_directory() {
    let fs = MemoryFs::with(&[]);
    let printer = Recorder::new();
    let doc: Document = vec![(front("out.txt"), "hello".to_string())];
    generate(&fs, &printer, Some("base"), &doc).unwrap();
    let expected = std::path::Path::new("base").join("out.txt").to_string_lossy().into_owned();
    assert_ne!(expected, "out.txt");
    assert_eq!(fs.text(&expected), Some("hello".to_string()));
    assert_eq!(fs.written(), vec![expected.clone()]);
    assert_eq!(printer.seen(), vec![format!("added {}", expected)]);
}

#[test]
fn the_machine_asks_one_thing_at_a_time() {
    let mut directive = front("out.txt");
    directive.skip_exists = true;
    directive.skip_glob = Some("*.x".to_string());
    directive.message = Some("m".to_string());
    directive.injections.push(injection("mod.rs", "P", Some(Placement::Prepend)));
    let doc: Document = vec![(directive, "body".to_string())];

    let (state, action) = Progress::start(&doc);
    assert!(matches!(action, Action::Exists(ref p) if p == "out.txt"));
    let (state, action) = state.step(&doc, Event::Exists(false));
    assert!(matches!(action, Action::Glob(ref g) if g == "*.x"));
    let (state, action) = state.step(&doc, Event::Globbed(0));
    assert!(matches!(action, Action::Exists(ref p) if p == "out.txt"));
    let (state, action) = state.step(&doc, Event::Exists(false));
    assert!(matches!(
        action,
        Action::Write { ref path, ref content, notice: Notice::Added }
            if path == "out.txt" && content == "body"
    ));
    let (state, action) = state.step(&doc, Event::Done);
    assert!(matches!(action, Action::Exists(ref p) if p == "mod.rs"));
    let (state, action) = state.step(&doc, Event::Exists(true));
    assert!(matches!(action, Action::Read(ref p) if p == "mod.rs"));
    let (state, action) = state.step(&doc, Event::Content("x".to_string()));
    assert!(matches!(
        action,
        Action::Write { ref path, ref content, notice: Notice::Injected }
            if path == "mod.rs" && content == "P\nx"
    ));
    let (state, action) = state.step(&doc, Event::Done);
    assert!(matches!(
        action,
        Action::Finish(Ok(GenResult::Generated { message: Some(ref m) })) if m == "m"
    ));
    let (_, action) = state.step(&doc, Event::Done);
    assert!(matches!(action, Action::Finish(Err(Error::OutOfTurn))));
}

#[test]
fn an_answer_that_was_not_asked_for_ends_the_run() {
    let doc: Document = vec![(front("out.txt"), "body".to_string())];
    let (state, action) = Progress::start(&doc);
    assert!(matches!(action, Action::Exists(_)));
    let (_, action) = state.step(&doc, Event::Content("x".to_string()));
    assert!(matches!(action, Action::Finish(Err(Error::OutOfTurn))));
}

#[test]
fn a_failure_ends_the_run_with_its_error() {
    let doc: Document = vec![(front("out.txt"), "body".to_string())];
    let (state, _) = Progress::start(&doc);
    let (_, action) = state.step(&doc, Event::Failed(Error::Storage("disk".to_string())));
    assert!(matches!(action, Action::Finish(Err(Error::Storage(ref t))) if t == "disk"));
}

#[test]
fn a_rendered_document_runs_to_its_message() {
    let rendered = "\n---\nto: ./file.txt\nmessage: \"Hello\"\n---\nHello, World!\n";
    let pairs = parse_template(rendered).unwrap();
    assert_eq!(pairs.len(), 1);
    assert_eq!(pairs[0].0, "to: ./file.txt\nmessage: \"Hello\"\n");
    let fields = FrontMatterFields {
        to: "./file.txt".to_string(),
        skip_exists: false,
        skip_glob: None,
        message: Some("Hello".to_string()),
        injections: None,
    };
    let directive = FrontMatter::decode(&fields).unwrap();
    let doc: Document = vec![(directive, pairs[0].1.clone())];
    let fs = MemoryFs::with(&[]);
    let printer = Recorder::new();
    let result = generate(&fs, &printer, None, &doc).unwrap();
    assert_eq!(message_of(result), Some("Hello".to_string()));
    assert_eq!(fs.text("./file.txt"), Some("Hello, World!\n".to_string()));
}

#[test]
fn a_part_left_out_by_its_glob_asks_for_no_write() {
    let mut directive = front("out.txt");
    directive.skip_glob = Some("*.x".to_string());
    let doc: Document = vec![(directive, "body".to_string())];
    let (state, action) = Progress::start(&doc);
    assert!(matches!(action, Action::Glob(ref g) if g == "*.x"));
    let (state, action) = state.step(&doc, Event::Globbed(3));
    assert!(matches!(action, Action::Skip(ref p) if p == "out.txt"));
    let (_, action) = state.step(&doc, Event::Done);
    assert!(matches!(action, Action::Finish(Ok(GenResult::Generated { message: None }))));
}

#[test]
fn an_existing_file_is_reported_as_overwritten() {
    let doc: Document = vec![(front("out.txt"), "body".to_string())];
    let (state, _) = Progress::start(&doc);
    let (_, action) = state.step(&doc, Event::Exists(true));
    assert!(matches!(action, Action::Write { notice: Notice::Overwritten, .. }));
}

#[test]
fn an_injection_without_a_placement_is_reported_as_unchanged() {
    let mut directive = front("out.txt");
    directive.injections.push(injection("mod.rs", "P", None));
    let doc: Document = vec![(directive, "body".to_string())];
    let (state, _) = Progress::start(&doc);
    let (state, _) = state.step(&doc, Event::Exists(false));
    let (state, _) = state.step(&doc, Event::Done);
    let (state, _) = state.step(&doc, Event::Exists(true));
    let (_, action) = state.step(&doc, Event::Content("text".to_string()));
    assert!(matches!(
        action,
        Action::Write { ref path, ref content, notice: Notice::Unchanged }
            if path == "mod.rs" && content == "text"
    ));
}

#[test]
fn a_missing_target_ends_the_machine_with_its_name() {
    let mut directive = front("out.txt");
    directive.injections.push(injection("absent.rs", "P", Some(Placement::Append)));
    let doc: Document = vec![(directive, "body".to_string())];
    let (state, _) = Progress::start(&doc);
    let (state, _) = state.step(&doc, Event::Exists(false));
    let (state, _) = state.step(&doc, Event::Done);
    let (_, action) = state.step(&doc, Event::Exists(false));
    assert!(matches!(action, Action::Finish(Err(Error::TargetMissing(ref t))) if t == "absent.rs"));
}
