use std::collections::BTreeMap;

use colored::Colorize;
use human_utils::confirm::is_affirmative;
use human_utils::create::{content_text, run_nef, run_new, Names, Outcome};
use human_utils::output::{Color, EntryInfo, Snapshot, Span, Step};
use human_utils::remove::{finish_removal, removal_failure, run_remove, Remover};
use human_utils::rename::{run_move, run_rename, Renamer};
use human_utils::{StandardOptions, FAILURE, SUCCESS};

#[derive(Clone, Debug)]
enum Node {
    Dir,
    File(String),
}

/// A directory tree held in memory, set up the way the command tests describe it: each
/// listed path is a file whose content is its own path.
struct Env {
    nodes: BTreeMap<String, Node>,
}

fn normal(p: &str) -> String {
    let mut s = p;
    while let Some(rest) = s.strip_prefix("./") {
        s = rest;
    }
    s.trim_end_matches('/').to_string()
}

fn env(description: &[&str]) -> Env {
    colored::control::set_override(true);
    let mut e = Env { nodes: BTreeMap::new() };
    for f in description {
        if let Some((parent, _)) = f.rsplit_once('/') {
            e.make_dirs(parent);
        }
        e.nodes.insert(f.to_string(), Node::File(f.to_string()));
    }
    e
}

impl Env {
    fn make_dirs(&mut self, p: &str) {
        let p = normal(p);
        if p.is_empty() {
            return;
        }
        let mut acc = String::new();
        for part in p.split('/') {
            if !acc.is_empty() {
                acc.push('/');
            }
            acc.push_str(part);
            self.nodes.insert(acc.clone(), Node::Dir);
        }
    }

    fn has(&self, p: &str) -> bool {
        self.nodes.contains_key(&normal(p))
    }

    fn exists_directory(&self, p: &str) -> bool {
        matches!(self.nodes.get(&normal(p)), Some(Node::Dir))
    }

    fn read(&self, p: &str) -> String {
        match self.nodes.get(&normal(p)) {
            Some(Node::File(c)) => c.clone(),
            other => panic!("no file at {}: {:?}", p, other),
        }
    }

    fn write(&mut self, p: &str, content: &str) {
        self.nodes.insert(normal(p), Node::File(content.to_string()));
    }

    fn info(&self, p: &str) -> Option<EntryInfo> {
        match self.nodes.get(&normal(p)) {
            Some(Node::Dir) => Some(EntryInfo { is_dir: true, len: 4096 }),
            Some(Node::File(c)) => Some(EntryInfo { is_dir: false, len: c.len() as u64 }),
            None => None,
        }
    }

    /// What the file system shows at the stored paths and at the paths given.
    fn snapshot(&self, asked: &[&str]) -> Snapshot {
        let mut keys: Vec<String> = self.nodes.keys().cloned().collect();
        for a in asked {
            keys.push(a.to_string());
        }
        let mut snap = Snapshot { entries: Vec::new(), canonical: Vec::new(), errors: Vec::new() };
        for k in keys {
            match self.info(&k) {
                Some(info) => {
                    snap.entries.push((k.clone(), info));
                    snap.canonical.push((k.clone(), format!("/work/{}", normal(&k))));
                }
                None => {
                    snap.errors.push((k.clone(), "No such file or directory (os error 2)".to_string()));
                }
            }
        }
        snap
    }

    fn remove_tree(&mut self, p: &str) {
        let p = normal(p);
        let prefix = format!("{}/", p);
        self.nodes.retain(|k, _| k != &p && !k.starts_with(&prefix));
    }

    fn apply(&mut self, steps: &[Step]) {
        for step in steps {
            match step {
                Step::CreateDirAll(p) => self.make_dirs(p),
                Step::WriteFile(p, content) => {
                    if let Some((parent, _)) = normal(p).rsplit_once('/') {
                        self.make_dirs(parent);
                    }
                    self.write(p, content.as_deref().unwrap_or(""));
                }
                Step::RemoveFile(p) => {
                    self.nodes.remove(&normal(p));
                }
                Step::RemoveDirAll(p) => self.remove_tree(p),
                Step::Rename(from, to) => {
                    let from = normal(from);
                    let to = normal(to);
                    self.remove_tree(&to);
                    let prefix = format!("{}/", from);
                    let moved: Vec<(String, Node)> = self
                        .nodes
                        .iter()
                        .filter(|(k, _)| **k == from || k.starts_with(&prefix))
                        .map(|(k, v)| (format!("{}{}", to, &k[from.len()..]), v.clone()))
                        .collect();
                    self.remove_tree(&from);
                    for (k, v) in moved {
                        self.nodes.insert(k, v);
                    }
                }
                Step::Say(_) | Step::Complain(_) => {}
            }
        }
    }
}

fn render(spans: &[Span]) -> String {
    spans
        .iter()
        .map(|s| match s.color {
            Color::Plain => s.text.clone(),
            Color::BrightGreen => s.text.bright_green().to_string(),
            Color::BrightRed => s.text.bright_red().to_string(),
        })
        .collect()
}

/// What a run printed and returned, as the command tests see it.
struct Res {
    prompt: String,
    output: String,
    error: String,
    code: i32,
}

fn confirmed(answer: Option<&str>) -> bool {
    match answer {
        Some(a) => {
            let typed = format!("{}\n", a);
            let line = match typed.find('\n') {
                Some(end) => &typed[..=end],
                None => typed.as_str(),
            };
            is_affirmative(line)
        }
        None => is_affirmative(""),
    }
}

fn finish(e: &mut Env, o: Outcome, answered: bool) -> Res {
    e.apply(&o.steps);
    let mut output: Vec<String> = Vec::new();
    let mut error: Vec<String> = Vec::new();
    for step in &o.steps {
        match step {
            Step::Say(spans) => output.push(render(spans)),
            Step::Complain(text) => error.push(text.clone()),
            _ => {}
        }
    }
    let mut output = output.join("\n");
    let prompt = o.prompt.unwrap_or_default();
    if !answered {
        output = format!("{}{}", prompt, output);
    }
    Res { prompt, output: output.trim().to_string(), error: error.join("\n").trim().to_string(), code: o.code }
}

fn options(args: &[&str]) -> (StandardOptions, Vec<String>) {
    let mut o = StandardOptions { force: false, silent: false, dry_run: false, color: false, no_color: false };
    let mut rest = Vec::new();
    for a in args {
        match *a {
            "--force" | "-f" => o.force = true,
            "--silent" | "-s" => o.silent = true,
            "--dry-run" | "-n" => o.dry_run = true,
            "--color" => o.color = true,
            "--no-color" => o.no_color = true,
            other => rest.push(other.to_string()),
        }
    }
    (o, rest)
}

fn new(e: &mut Env, args: &[&str], answer: Option<&str>) -> Res {
    let (opts, rest) = options(args);
    let mut names = Names { paths: Vec::new(), file: Vec::new(), directory: Vec::new() };
    let mut content: Vec<String> = Vec::new();
    let mut i = 0;
    while i < rest.len() {
        match rest[i].as_str() {
            "--" => {
                content = rest[i + 1..].to_vec();
                break;
            }
            "--file" => {
                names.file.push(rest[i + 1].clone());
                i += 1;
            }
            "--directory" | "-d" => {
                names.directory.push(rest[i + 1].clone());
                i += 1;
            }
            p => names.paths.push(p.to_string()),
        }
        i += 1;
    }
    let snap = e.snapshot(&[]);
    let o = run_new(&names, &content, &opts, &snap.entries, confirmed(answer));
    finish(e, o, answer.is_some())
}

fn remove(kind: Remover, e: &mut Env, args: &[&str], answer: Option<&str>) -> Res {
    let (opts, paths) = options(args);
    let asked: Vec<&str> = paths.iter().map(|s| s.as_str()).collect();
    let snap = e.snapshot(&asked);
    let o = run_remove(kind, &opts, &paths, &snap, confirmed(answer));
    finish(e, o, answer.is_some())
}

fn del(e: &mut Env, args: &[&str], answer: Option<&str>) -> Res {
    remove(Remover::Del, e, args, answer)
}

fn rem(e: &mut Env, args: &[&str], answer: Option<&str>) -> Res {
    remove(Remover::Rem, e, args, answer)
}

fn mov(e: &mut Env, args: &[&str], answer: Option<&str>) -> Res {
    let (opts, rest) = options(args);
    let mut move_into = false;
    let mut paths: Vec<String> = Vec::new();
    for a in rest {
        match a.as_str() {
            "--into" => move_into = true,
            "--to" => move_into = false,
            _ => paths.push(a),
        }
    }
    let destination = paths.pop().unwrap();
    let mut asked: Vec<&str> = paths.iter().map(|s| s.as_str()).collect();
    asked.push(destination.as_str());
    let snap = e.snapshot(&asked);
    let o = run_move(&opts, &paths, &destination, move_into, &snap, confirmed(answer));
    finish(e, o, answer.is_some())
}

fn nam(e: &mut Env, args: &[&str], answer: Option<&str>) -> Res {
    let (opts, rest) = options(args);
    let snap = e.snapshot(&[rest[0].as_str(), rest[1].as_str()]);
    let o = run_rename(Renamer::Nam, &opts, &rest[0], &rest[1], &snap, confirmed(answer));
    finish(e, o, answer.is_some())
}

fn nef(e: &mut Env, args: &[&str], answer: Option<&str>) -> Res {
    let (opts, rest) = options(args);
    let snap = e.snapshot(&[rest[0].as_str()]);
    let content = rest.get(1).cloned();
    let o = run_nef(&opts, &rest[0], &content, &snap, confirmed(answer));
    finish(e, o, answer.is_some())
}

// del

#[test]
fn del_basic_removes_file() {
    let mut env = env(&["foo"]);
    let res = del(&mut env, &["foo"], Some(""));
    assert_eq!(res.prompt, "Delete file \"foo\"? [Y/n]");
    assert_eq!(res.output, "D foo".bright_red().to_string());
    assert!(res.code == SUCCESS);
    assert!(!env.has("foo"));
}

#[test]
fn del_basic_removes_directory() {
    let mut env = env(&["foo/lorem"]);
    let res = del(&mut env, &["foo"], Some(""));
    assert_eq!(res.prompt, "Delete directory \"foo\"? [Y/n]");
    assert_eq!(res.output, "D foo/".bright_red().to_string());
    assert!(res.code == SUCCESS);
    assert!(!env.has("foo/lorem"));
    assert!(!env.has("foo"));
}

#[test]
fn del_multiple_removes_files() {
    let mut env = env(&["foo", "bar"]);
    let res = del(&mut env, &["foo", "bar", "--color"], Some(""));
    assert_eq!(res.prompt, "For the following...\nfoo\nbar\n...delete all? [Y/n]");
    assert_eq!(res.output, format!("{}\n{}", "D foo".bright_red(), "D bar".bright_red()));
    assert!(res.code == SUCCESS);
    assert!(!env.has("foo"));
    assert!(!env.has("bar"));
}

#[test]
fn del_multiple_removes_directories() {
    let mut env = env(&["foo/lorem", "bar/ipsum"]);
    let res = del(&mut env, &["foo", "bar", "--color"], Some(""));
    assert_eq!(res.prompt, "For the following...\nfoo/\nbar/\n...delete all? [Y/n]");
    assert_eq!(res.output, format!("{}\n{}", "D foo/".bright_red(), "D bar/".bright_red()));
    assert!(res.code == SUCCESS);
    assert!(!env.has("foo/lorem"));
    assert!(!env.has("foo"));
    assert!(!env.has("bar/lorem"));
    assert!(!env.has("bar"));
}

#[test]
fn del_no_existing_nonexistent_path_fails() {
    let mut env = env(&[]);
    let res = del(&mut env, &["foo"], None);
    assert!(res.error.starts_with("Error for \"foo\":"));
    assert!(res.code != SUCCESS);
}

#[test]
fn del_no_existing_nonexistent_paths_fail() {
    let mut env = env(&[]);
    let res = del(&mut env, &["foo", "bar"], None);
    let lines: Vec<&str> = res.error.lines().collect();
    assert_eq!(lines.len(), 3);
    assert!(lines[0].starts_with("\"foo\" error:"));
    assert!(lines[1].starts_with("\"bar\" error:"));
    assert_eq!(lines[2], "...no files or directories can be removed.");
    assert!(res.code != SUCCESS);
}

#[test]
fn del_no_existing_mix_of_existing_and_not_succeeds() {
    let mut env = env(&["foo"]);
    let res = del(&mut env, &["foo", "bar"], Some(""));
    assert!(res.prompt == "For the following...\nfoo\n...delete all existing? [Y/n]");
    assert!(res.error.starts_with("\"bar\" error:"));
    assert!(res.output == "D foo".bright_red().to_string());
    assert!(res.code == SUCCESS);
}

// rem

#[test]
fn rem_basic_removes_file() {
    let mut env = env(&["foo"]);
    let res = rem(&mut env, &["foo"], Some(""));
    assert!(res.prompt == "Remove file \"foo\"? [Y/n]");
    assert!(res.output == "Done");
    assert!(res.code == SUCCESS);
    assert!(!env.has("foo"));
}

#[test]
fn rem_basic_removes_directory() {
    let mut env = env(&["foo/lorem"]);
    let res = rem(&mut env, &["foo"], Some(""));
    assert!(res.prompt == "Remove directory \"foo\"? [Y/n]");
    assert!(res.output == "Done");
    assert!(res.code == SUCCESS);
    assert!(!env.has("foo/lorem"));
    assert!(!env.has("foo"));
}

#[test]
fn rem_multiple_removes_files() {
    let mut env = env(&["foo", "bar"]);
    let res = rem(&mut env, &["foo", "bar"], Some(""));
    assert!(res.prompt == "For the following...\n\"foo\"\n\"bar\"\n...remove all? [Y/n]");
    assert!(res.output == "Done");
    assert!(res.code == SUCCESS);
    assert!(!env.has("foo"));
    assert!(!env.has("bar"));
}

#[test]
fn rem_multiple_removes_directories() {
    let mut env = env(&["foo/lorem", "bar/ipsum"]);
    let res = rem(&mut env, &["foo", "bar"], Some(""));
    assert!(res.prompt == "For the following...\n\"foo/\"\n\"bar/\"\n...remove all? [Y/n]");
    assert!(res.output == "Done");
    assert!(res.code == SUCCESS);
    assert!(!env.has("foo/lorem"));
    assert!(!env.has("foo"));
    assert!(!env.has("bar/lorem"));
    assert!(!env.has("bar"));
}

#[test]
fn rem_no_existing_nonexistent_path_fails() {
    let mut env = env(&[]);
    let res = rem(&mut env, &["foo"], None);
    assert!(res.error.starts_with("Error for \"foo\":"));
    assert!(res.code != SUCCESS);
}

#[test]
fn rem_no_existing_nonexistent_paths_fail() {
    let mut env = env(&[]);
    let res = rem(&mut env, &["foo", "bar"], None);
    let lines: Vec<&str> = res.error.lines().collect();
    assert_eq!(lines.len(), 3);
    assert!(lines[0].starts_with("\"foo\" error:"));
    assert!(lines[1].starts_with("\"bar\" error:"));
    assert_eq!(lines[2], "...no files or directories can be removed.");
    assert!(res.code != SUCCESS);
}

#[test]
fn rem_no_existing_mix_of_existing_and_not_succeeds() {
    let mut env = env(&["foo"]);
    let res = rem(&mut env, &["foo", "bar"], Some(""));
    assert!(res.prompt == "For the following...\n\"foo\"\n...remove all existing? [Y/n]");
    assert!(res.error.starts_with("\"bar\" error:"));
    assert!(res.output.ends_with("Done"));
    assert!(res.code == SUCCESS);
}

// mov

fn moved(tag: &str, from: &str, to: &str) -> String {
    format!("{} {} -> {}", tag.bright_green(), from.bright_red(), to.bright_green())
}

#[test]
fn mov_basic_renames_file() {
    let mut env = env(&["foo"]);
    let res = mov(&mut env, &["foo", "bar"], None);
    assert_eq!(res.output, moved("M", "foo", "bar"));
    assert!(res.code == SUCCESS);
    assert!(!env.has("foo"));
    assert!(env.read("bar") == "foo");
}

#[test]
fn mov_basic_renames_directory() {
    let mut env = env(&["foo/lorem"]);
    let res = mov(&mut env, &["foo", "bar"], None);
    assert_eq!(res.output, moved("M", "foo", "bar"));
    assert!(res.code == SUCCESS);
    assert!(!env.has("foo/lorem"));
    assert!(!env.has("foo"));
    assert!(env.read("bar/lorem") == "foo/lorem");
}

#[test]
fn moves_into_directory() {
    let mut env = env(&["foo/lorem", "bar"]);
    let res = mov(&mut env, &["bar", "foo/"], None);
    assert_eq!(
        res.output,
        format!("{} {} -> {}{}", "M".bright_green(), "bar".bright_red(), "foo/", "bar".bright_green())
    );
    assert!(res.code == SUCCESS);
    assert!(!env.has("bar"));
    assert!(env.read("foo/bar") == "bar");
}

#[test]
fn mov_missing_source_nonexistent_source_fails() {
    let mut env = env(&[]);
    let res = mov(&mut env, &["foo", "bar"], None);
    assert!(res.error.starts_with("Error for \"foo\":"));
    assert!(res.code != SUCCESS);
}

#[test]
fn mov_noop_same_exact_args() {
    let mut env = env(&["foo"]);
    let res = mov(&mut env, &["foo", "foo"], None);
    assert_eq!(res.output, "\"foo\" is already located at \"foo\"");
    assert!(res.code == SUCCESS);
}

#[test]
fn mov_noop_different_arg_same_canonical_path() {
    let mut env = env(&["foo"]);
    let res = mov(&mut env, &["foo", "./foo"], None);
    assert_eq!(res.output, "\"foo\" is already located at \"./foo\"");
    assert!(res.code == SUCCESS);
}

#[test]
fn renames_file_via_to_option() {
    let mut env = env(&["foo"]);
    let res = mov(&mut env, &["--to", "foo", "bar"], None);
    assert_eq!(res.output, moved("M", "foo", "bar"));
    assert!(res.code == SUCCESS);
    assert!(!env.has("foo"));
    assert!(env.read("bar") == "foo");
}

#[test]
fn renames_directory_via_to_option() {
    let mut env = env(&["foo/lorem"]);
    let res = mov(&mut env, &["--to", "foo", "bar"], None);
    assert_eq!(res.output, moved("M", "foo", "bar"));
    assert!(res.code == SUCCESS);
    assert!(!env.has("foo/lorem"));
    assert!(!env.has("foo"));
    assert!(env.read("bar/lorem") == "foo/lorem");
}

#[test]
fn moves_into_directory_via_into_option() {
    let mut env = env(&["foo/lorem", "bar"]);
    let res = mov(&mut env, &["--into", "bar", "foo"], None);
    assert_eq!(
        res.output,
        format!("{} {} -> {}{}", "M".bright_green(), "bar".bright_red(), "foo/", "bar".bright_green())
    );
    assert!(res.code == SUCCESS);
    assert!(!env.has("bar"));
    assert!(env.read("foo/bar") == "bar");
}

#[test]
fn mov_replace_existing_asks_for_confirmation() {
    let mut env = env(&["foo", "bar"]);
    let res = mov(&mut env, &["foo", "bar"], Some(""));
    assert_eq!(res.prompt, "File \"bar\" already exists, replace it? [Y/n]");
    assert_eq!(res.output, moved("M", "foo", "bar"));
    assert!(res.code == SUCCESS);
    assert!(!env.has("foo"));
    assert!(env.read("bar") == "foo");
}

#[test]
fn mov_replace_existing_without_confirmation_does_nothing() {
    let mut env = env(&["foo", "bar"]);
    let res = mov(&mut env, &["foo", "bar"], Some("n"));
    assert_eq!(res.prompt, "File \"bar\" already exists, replace it? [Y/n]");
    assert_eq!(res.output, "");
    assert!(res.code != SUCCESS);
    assert!(env.has("foo"));
    assert!(env.read("bar") == "bar");
}

#[test]
fn mov_replace_existing_file_replacing_dir() {
    let mut env = env(&["foo", "bar/baz"]);
    let res = mov(&mut env, &["foo", "bar"], Some("\n"));
    assert_eq!(res.prompt, "Directory \"bar\" already exists, replace it? [Y/n]");
    assert_eq!(res.output, moved("M", "foo", "bar"));
    assert!(res.code == SUCCESS);
    assert!(!env.has("foo"));
}

#[test]
fn mov_replace_existing_dir_replacing_file() {
    let mut env = env(&["foo/baz", "bar"]);
    let res = mov(&mut env, &["foo", "bar"], Some("\n"));
    assert_eq!(res.prompt, "File \"bar\" already exists, replace it? [Y/n]");
    assert_eq!(res.output, moved("M", "foo", "bar"));
    assert!(res.code == SUCCESS);
    assert!(!env.has("foo"));
}

#[test]
fn mov_replace_existing_dir_replacing_dir() {
    let mut env = env(&["foo/baz", "bar/lorem"]);
    let res = mov(&mut env, &["foo", "bar"], Some("\n"));
    assert_eq!(res.prompt, "Directory \"bar\" already exists, replace it? [Y/n]");
    assert_eq!(res.output, moved("M", "foo", "bar"));
    assert!(res.code == SUCCESS);
    assert!(!env.has("foo"));
    assert!(!env.has("foo/baz"));
    assert!(!env.has("bar/lorem"));
}

// nam

#[test]
fn nam_basic_renames_file() {
    let mut env = env(&["foo"]);
    let res = nam(&mut env, &["foo", "bar"], None);
    assert!(res.output == "\"foo\" -> \"bar\"");
    assert!(res.code == SUCCESS);
    assert!(!env.has("foo"));
    assert!(env.read("bar") == "foo");
}

#[test]
fn nam_basic_renames_directory() {
    let mut env = env(&["foo/lorem"]);
    let res = nam(&mut env, &["foo", "bar"], None);
    assert!(res.output == "\"foo\" -> \"bar\"");
    assert!(res.code == SUCCESS);
    assert!(!env.has("foo/lorem"));
    assert!(!env.has("foo"));
    assert!(env.read("bar/lorem") == "foo/lorem");
}

#[test]
fn nam_missing_source_nonexistent_source_fails() {
    let mut env = env(&[]);
    let res = nam(&mut env, &["foo", "bar"], None);
    assert!(res.error.starts_with("Error for \"foo\":"));
    assert!(res.code != SUCCESS);
}

#[test]
fn nam_noop_same_exact_args() {
    let mut env = env(&["foo"]);
    let res = nam(&mut env, &["foo", "foo"], None);
    assert!(res.output == "\"foo\" is already located at \"foo\"");
    assert!(res.code == SUCCESS);
}

#[test]
fn nam_noop_different_arg_same_canonical_path() {
    let mut env = env(&["foo"]);
    let res = nam(&mut env, &["foo", "./foo"], None);
    assert!(res.output == "\"foo\" is already located at \"./foo\"");
    assert!(res.code == SUCCESS);
}

#[test]
fn nam_replace_existing_asks_for_confirmation() {
    let mut env = env(&["foo", "bar"]);
    let res = nam(&mut env, &["foo", "bar"], Some(""));
    assert!(res.prompt == "File \"bar\" already exists, replace it? [Y/n]");
    assert!(res.output == "\"foo\" -> \"bar\"");
    assert!(res.code == SUCCESS);
    assert!(!env.has("foo"));
    assert!(env.read("bar") == "foo");
}

#[test]
fn nam_replace_existing_without_confirmation_does_nothing() {
    let mut env = env(&["foo", "bar"]);
    let res = nam(&mut env, &["foo", "bar"], Some("n"));
    assert!(res.prompt == "File \"bar\" already exists, replace it? [Y/n]");
    assert!(res.output == "");
    assert!(res.code != SUCCESS);
    assert!(env.has("foo"));
    assert!(env.read("bar") == "bar");
}

#[test]
fn nam_replace_existing_file_replacing_dir() {
    let mut env = env(&["foo", "bar/baz"]);
    let res = nam(&mut env, &["foo", "bar"], Some("\n"));
    assert!(res.prompt == "Directory \"bar\" already exists, replace it? [Y/n]");
    assert!(res.output == "\"foo\" -> \"bar\"");
    assert!(res.code == SUCCESS);
    assert!(!env.has("foo"));
    assert!(!env.has("bar/baz"));
    assert!(env.read("bar") == "foo");
}

#[test]
fn nam_replace_existing_dir_replacing_file() {
    let mut env = env(&["foo/baz", "bar"]);
    let res = nam(&mut env, &["foo", "bar"], Some("\n"));
    assert!(res.prompt == "File \"bar\" already exists, replace it? [Y/n]");
    assert!(res.output == "\"foo\" -> \"bar\"");
    assert!(res.code == SUCCESS);
    assert!(!env.has("foo"));
    assert!(!env.has("foo/baz"));
    assert!(env.has("bar/baz"));
    assert!(env.read("bar/baz") == "foo/baz");
}

#[test]
fn nam_replace_existing_dir_replacing_dir() {
    let mut env = env(&["foo/baz", "bar/lorem"]);
    let res = nam(&mut env, &["foo", "bar"], Some("\n"));
    assert!(res.prompt == "Directory \"bar\" already exists, replace it? [Y/n]");
    assert!(res.output == "\"foo\" -> \"bar\"");
    assert!(res.code == SUCCESS);
    assert!(!env.has("foo"));
    assert!(!env.has("foo/baz"));
    assert!(!env.has("foo/lorem"));
    assert!(env.has("bar/baz"));
    assert!(env.read("bar/baz") == "foo/baz");
}

// nef

#[test]
fn creates_a_file() {
    let mut env = env(&[]);
    let res = nef(&mut env, &["foo"], None);
    assert!(res.output == "N foo".bright_green().to_string());
    assert!(res.code == SUCCESS);
    assert!(env.read("foo") == "");
}

#[test]
fn writes_content() {
    let mut env = env(&[]);
    nef(&mut env, &["foo", "Hello world"], None);
    assert!(env.read("foo") == "Hello world");
}

// new

fn created(tag: &str, path: &str) -> String {
    format!("{} {}", tag.bright_green(), path.bright_green())
}

#[test]
fn new_basic_creates_file() {
    let mut env = env(&[]);
    let res = new(&mut env, &["a"], None);
    assert_eq!(res.output, created("N", "a"));
    assert!(res.code == SUCCESS);
    assert_eq!(env.read("a"), "");
}

#[test]
fn new_basic_creates_directory() {
    let mut env = env(&[]);
    let res = new(&mut env, &["a/"], None);
    assert_eq!(res.output, created("N", "a/"));
    assert!(res.code == SUCCESS);
    assert!(env.exists_directory("a"));
}

#[test]
fn cannot_create_file_and_directory_at_same_path() {
    let mut env = env(&[]);
    let res = new(&mut env, &["b/", "a", "b"], None);
    assert_eq!(res.error, "Error: Cannot create both file and a directory at:\nb");
    assert!(res.code == FAILURE);
    assert!(!env.has("a"));
}

#[test]
fn cannot_create_file_and_directory_at_same_paths() {
    let mut env = env(&[]);
    let res = new(&mut env, &["b/", "a", "b", "c", "c/"], None);
    assert_eq!(res.error, "Error: Cannot create both file and a directory at:\nb\nc");
    assert!(res.code == FAILURE);
    assert!(!env.has("a"));
}

#[test]
fn cannot_create_file_and_directory_at_same_parent_path() {
    let mut env = env(&[]);
    let res = new(&mut env, &["b/c", "a", "b"], None);
    assert_eq!(res.error, "Error: Cannot create both file and a directory at:\nb");
    assert!(res.code == FAILURE);
    assert!(!env.has("a"));
}

#[test]
fn creates_file_with_content() {
    let mut env = env(&[]);
    let res = new(&mut env, &["foo", "--", "Hello world"], None);
    assert_eq!(res.output, created("N", "foo"));
    assert!(res.code == SUCCESS);
    assert_eq!(env.read("foo"), "Hello world\n");
}

#[test]
fn creates_files_with_content() {
    let mut env = env(&[]);
    let res = new(&mut env, &["a/", "b", "c", "--", "Hello world"], None);
    assert_eq!(
        res.output,
        format!("{}\n{}\n{}", created("N", "a/"), created("N", "b"), created("N", "c"))
    );
    assert!(res.code == SUCCESS);
    assert_eq!(env.read("b"), "Hello world\n");
    assert_eq!(env.read("c"), "Hello world\n");
}

#[test]
fn overwrites_empty_file_with_content() {
    let mut env = env(&["a"]);
    env.write("a", "");
    let res = new(&mut env, &["a", "--", "Hello world"], None);
    assert_eq!(res.output, created("M", "a"));
    assert_eq!(env.read("a"), "Hello world\n");
}

#[test]
fn prompts_to_overwrite_file_with_content() {
    let mut env = env(&["a"]);
    env.write("a", "So important!");
    let res = new(&mut env, &["a", "--", "Hello world"], Some("y"));
    assert_eq!(res.prompt, "Overwrite file \"a\"? [Y/n]");
    assert_eq!(res.output, created("M", "a"));
    assert!(res.code == SUCCESS);
    assert_eq!(env.read("a"), "Hello world\n");
}

#[test]
fn prompts_to_erase_file() {
    let mut env = env(&["a"]);
    env.write("a", "So important!");
    let res = new(&mut env, &["a", "--", ""], Some("y"));
    assert_eq!(res.prompt, "Overwrite file \"a\"? [Y/n]");
    assert_eq!(res.output, created("M", "a"));
    assert!(res.code == SUCCESS);
    assert_eq!(env.read("a"), "");
}

#[test]
fn creates_directory_via_option() {
    let mut env = env(&[]);
    let res = new(&mut env, &["--directory", "a"], None);
    assert_eq!(res.output, created("N", "a/"));
    assert!(res.code == SUCCESS);
    assert!(env.exists_directory("a"));
}

#[test]
fn dry_run_does_not_create_file() {
    let mut env = env(&[]);
    let res = new(&mut env, &["a", "--dry-run"], None);
    assert_eq!(res.output, created("N", "a"));
    assert!(res.code == SUCCESS);
    assert!(!env.has("a"));
}

#[test]
fn dry_run_does_not_create_directory() {
    let mut env = env(&[]);
    let res = new(&mut env, &["a/", "--dry-run"], None);
    assert_eq!(res.output, created("N", "a/"));
    assert!(res.code == SUCCESS);
    assert!(!env.exists_directory("a"));
}

#[test]
fn creates_file_via_option() {
    let mut env = env(&[]);
    let res = new(&mut env, &["--file", "a"], None);
    assert_eq!(res.output, created("N", "a"));
    assert!(res.code == SUCCESS);
    assert_eq!(env.read("a"), "");
}

#[test]
fn new_file_option_fails_with_directory_argument() {
    let mut env = env(&[]);
    let res = new(&mut env, &["--file", "a/"], None);
    assert_eq!(
        res.error,
        "Error: File path \"a/\" cannot end with a `/` when `--file` option is used."
    );
    assert!(res.code == FAILURE);
}

#[test]
fn creates_files_and_directories() {
    let mut env = env(&[]);
    let res = new(&mut env, &["a/", "b", "c", "d/"], None);
    assert_eq!(
        res.output,
        format!(
            "{}\n{}\n{}\n{}",
            created("N", "a/"),
            created("N", "d/"),
            created("N", "b"),
            created("N", "c")
        )
    );
    assert!(res.code == SUCCESS);
    assert!(env.exists_directory("a"));
    assert!(env.exists_directory("d"));
    assert_eq!(env.read("b"), "");
    assert_eq!(env.read("c"), "");
}

#[test]
fn creates_nested_directories() {
    let mut env = env(&[]);
    let res = new(&mut env, &["a/b/", "a/", "a/b/c/"], None);
    assert_eq!(
        res.output,
        format!("{}\n{}\n{}", created("N", "a/"), created("N", "a/b/"), created("N", "a/b/c/"))
    );
    assert!(res.code == SUCCESS);
    assert!(env.exists_directory("a/b/c"));
}

#[test]
fn prompts_to_erase_directory() {
    let mut env = env(&["a/b"]);
    let res = new(&mut env, &["a"], Some("y"));
    assert_eq!(res.prompt, "Overwrite directory \"a\"? [Y/n]");
    assert_eq!(res.output, format!("{}\n{}", "D a/".bright_red(), created("M", "a")));
    assert!(res.code == SUCCESS);
    assert_eq!(env.read("a"), "");
}

#[test]
fn prompts_to_erase_nested_directory() {
    let mut env = env(&["a/b/c"]);
    let res = new(&mut env, &["a/b"], Some("y"));
    assert_eq!(res.prompt, "Overwrite directory \"a/b\"? [Y/n]");
    assert_eq!(
        res.output,
        format!("{}\n{} {}{}", "D a/b/".bright_red(), "M".bright_green(), "a/", "b".bright_green())
    );
    assert!(res.code == SUCCESS);
    assert_eq!(env.read("a/b"), "");
}

#[test]
fn prompts_to_erase_nested_file() {
    let mut env = env(&["a/b"]);
    let res = new(&mut env, &["a/b/c"], Some("y"));
    assert_eq!(res.prompt, "Overwrite file \"a/b\"? [Y/n]");
    assert_eq!(
        res.output,
        format!("{}\n{} {}{}", "D a/b".bright_red(), "N".bright_green(), "a/", "b/c".bright_green())
    );
    assert!(res.code == SUCCESS);
    assert_eq!(env.read("a/b/c"), "");
}

#[test]
fn noops_on_directory_that_already_exists() {
    let mut env = env(&["a/b"]);
    let res = new(&mut env, &["a/"], None);
    assert_eq!(res.output, "Directory \"a\" already exists");
    assert!(res.code == SUCCESS);
}

#[test]
fn noops_on_file_that_already_exists() {
    let mut env = env(&["a"]);
    env.write("a", "");
    let res = new(&mut env, &["a"], None);
    assert_eq!(res.output, "File \"a\" already exists");
    assert!(res.code == SUCCESS);
}

#[test]
fn creates_directories_for_file() {
    let mut env = env(&[]);
    let res = new(&mut env, &["c/b/a"], None);
    assert_eq!(res.output, created("N", "c/b/a"));
    assert!(res.code == SUCCESS);
    assert_eq!(env.read("c/b/a"), "");
}

#[test]
fn creates_directories_for_directory() {
    let mut env = env(&[]);
    let res = new(&mut env, &["c/b/a/"], None);
    assert_eq!(res.output, created("N", "c/b/a/"));
    assert!(res.code == SUCCESS);
    assert!(env.exists_directory("c/b/a"));
}

#[test]
fn new_silent_creates_file() {
    let mut env = env(&[]);
    let res = new(&mut env, &["a", "--silent"], None);
    assert_eq!(res.output, "");
    assert!(res.code == SUCCESS);
    assert_eq!(env.read("a"), "");
}

#[test]
fn new_silent_creates_directory() {
    let mut env = env(&[]);
    let res = new(&mut env, &["a/", "--silent"], None);
    assert_eq!(res.output, "");
    assert!(res.code == SUCCESS);
    assert!(env.exists_directory("a"));
}

#[test]
fn test_strip_path_prefix() {
    assert_eq!(human_utils::output::strip_path_prefix("/a/b/c", "/a"), Some("b/c".to_string()));
}

// properties and edge cases

fn snapshot_of(e: &Env) -> Vec<(String, String)> {
    e.nodes
        .iter()
        .map(|(k, v)| match v {
            Node::Dir => (k.clone(), "/".to_string()),
            Node::File(c) => (k.clone(), c.clone()),
        })
        .collect()
}

#[test]
fn new_creates_one_entry_per_requested_path() {
    let mut env = env(&[]);
    let res = new(&mut env, &["x/", "y", "z/w/", "--file", "v", "-d", "u"], None);
    assert!(res.code == SUCCESS);
    assert!(env.exists_directory("x"));
    assert!(env.exists_directory("z/w"));
    assert!(env.exists_directory("u"));
    assert_eq!(env.read("y"), "");
    assert_eq!(env.read("v"), "");
    let keys: Vec<&String> = env.nodes.keys().collect();
    assert_eq!(keys, vec!["u", "v", "x", "y", "z", "z/w"]);
}

#[test]
fn new_conflict_through_ancestor_creates_nothing() {
    let mut env = env(&["keep"]);
    let before = snapshot_of(&env);
    let res = new(&mut env, &["p", "p/q/", "other"], Some("y"));
    assert_eq!(res.error, "Error: Cannot create both file and a directory at:\np");
    assert!(res.code == FAILURE);
    assert_eq!(snapshot_of(&env), before);
}

#[test]
fn new_creates_missing_ancestors() {
    let mut env = env(&["top/existing"]);
    let res = new(&mut env, &["top/one/two/three"], None);
    assert!(res.code == SUCCESS);
    assert!(env.exists_directory("top/one"));
    assert!(env.exists_directory("top/one/two"));
    assert_eq!(env.read("top/one/two/three"), "");
    assert_eq!(
        res.output,
        format!("{} {}{}", "N".bright_green(), "top/", "one/two/three".bright_green())
    );
}

#[test]
fn new_again_on_empty_file_is_a_noop() {
    let mut env = env(&[]);
    new(&mut env, &["d/f"], None);
    let before = snapshot_of(&env);
    let res = new(&mut env, &["d/f"], None);
    assert_eq!(res.output, "File \"d/f\" already exists");
    assert!(res.code == SUCCESS);
    assert_eq!(snapshot_of(&env), before);
}

#[test]
fn new_again_on_directory_is_a_noop() {
    let mut env = env(&[]);
    new(&mut env, &["d/e/"], None);
    let before = snapshot_of(&env);
    let res = new(&mut env, &["d/e/"], None);
    assert_eq!(res.output, "Directory \"d/e\" already exists");
    assert!(res.code == SUCCESS);
    assert_eq!(snapshot_of(&env), before);
}

#[test]
fn new_noop_note_shows_even_when_silent() {
    let mut env = env(&[]);
    new(&mut env, &["d/"], None);
    let res = new(&mut env, &["d/", "--silent"], None);
    assert_eq!(res.output, "Directory \"d\" already exists");
}

#[test]
fn declining_changes_nothing() {
    for answer in ["n", "N", "no", "boo"] {
        let mut e = env(&["a/b", "c"]);
        e.write("c", "kept");
        let before = snapshot_of(&e);
        let res = new(&mut e, &["a", "c", "--", "text"], Some(answer));
        assert_eq!(res.prompt, "For the following...\na/\nc\n...overwrite all? [Y/n]");
        assert!(res.code != SUCCESS);
        assert_eq!(res.output, "");
        assert_eq!(snapshot_of(&e), before);

        let res = del(&mut e, &["c"], Some(answer));
        assert!(res.code != SUCCESS);
        assert_eq!(snapshot_of(&e), before);

        let res = mov(&mut e, &["a", "c"], Some(answer));
        assert!(res.code != SUCCESS);
        assert_eq!(snapshot_of(&e), before);
    }
}

#[test]
fn confirmations_that_go_on() {
    for answer in ["y", "Y", "yes", "", "  Yes please"] {
        let mut e = env(&["foo", "bar"]);
        let res = mov(&mut e, &["foo", "bar"], Some(answer));
        assert!(res.code == SUCCESS, "answer {:?}", answer);
    }
    assert!(!is_affirmative(""));
    assert!(is_affirmative("\n"));
    assert!(!is_affirmative("  \n"));
    assert!(is_affirmative("YES\n"));
}

#[test]
fn example_directory_and_two_files() {
    let mut env = env(&[]);
    let res = new(&mut env, &["a/", "b", "c"], None);
    assert_eq!(
        res.output,
        format!("{}\n{}\n{}", created("N", "a/"), created("N", "b"), created("N", "c"))
    );
    assert!(res.code == SUCCESS);
    assert!(env.exists_directory("a"));
    assert_eq!(env.read("b"), "");
    assert_eq!(env.read("c"), "");
}

#[test]
fn example_file_replaces_directory() {
    let mut env = env(&[]);
    let first = new(&mut env, &["b/", "a", "--force"], None);
    assert!(first.code == SUCCESS);
    assert!(env.exists_directory("b"));
    env.write("b/inner", "x");
    let res = new(&mut env, &["b", "--", "hi"], Some("y"));
    assert_eq!(res.prompt, "Overwrite directory \"b\"? [Y/n]");
    assert_eq!(res.output, format!("{}\n{}", "D b/".bright_red(), created("M", "b")));
    assert!(res.code == SUCCESS);
    assert!(!env.has("b/inner"));
    assert_eq!(env.read("b"), "hi\n");
}

#[test]
fn content_words_are_joined_by_spaces() {
    let mut env = env(&[]);
    new(&mut env, &["f", "--", "one", "two", "three"], None);
    assert_eq!(env.read("f"), "one two three\n");
}

#[test]
fn new_with_force_does_not_ask() {
    let mut env = env(&["a"]);
    let res = new(&mut env, &["a/", "--force"], None);
    assert!(res.prompt.is_empty());
    assert!(res.code == SUCCESS);
    assert!(env.exists_directory("a"));
    assert_eq!(res.output, format!("{}\n{}", "D a".bright_red(), created("M", "a/")));
}

#[test]
fn new_quotes_paths_with_spaces() {
    let mut env = env(&[]);
    let res = new(&mut env, &["my file"], None);
    let q = "\"".bright_green();
    assert_eq!(res.output, format!("{} {}{}{}", "N".bright_green(), q, "\"my file\"".bright_green(), q));
}

#[test]
fn new_no_color_shows_whole_path() {
    let mut env = env(&["top/x"]);
    let res = new(&mut env, &["top/y", "--no-color"], None);
    assert_eq!(res.output, created("N", "top/y"));
}

#[test]
fn path_helpers() {
    assert_eq!(human_utils::path_string("a b"), "\"a b\"");
    assert_eq!(human_utils::path_string("ab"), "ab");
    assert_eq!(human_utils::directory_path("ab"), "ab/");
    assert_eq!(human_utils::directory_path("ab/"), "ab/");
    assert_eq!(human_utils::output::strip_path_prefix("a/b/", "a"), Some("b/".to_string()));
    assert_eq!(human_utils::output::strip_path_prefix("a/b", "c"), None);
    assert_eq!(human_utils::paths::trim_trailing_separators("a//"), "a");
    assert_eq!(human_utils::paths::ancestors("/x/y"), vec!["/x/y", "/x", "/"]);
    assert_eq!(human_utils::rename::decimal(0), "0");
    assert_eq!(human_utils::rename::decimal(1207), "1207");
    assert!(human_utils::sorted::less_than("a/b", "a0"));
    assert!(!human_utils::sorted::less_than("b", "a/z"));
}

#[test]
fn content_text_cases() {
    assert_eq!(content_text(&vec![]), None);
    assert_eq!(content_text(&vec!["".to_string()]), None);
    assert_eq!(content_text(&vec!["".to_string(), "".to_string()]), Some(" \n".to_string()));
    assert_eq!(content_text(&vec!["hi".to_string()]), Some("hi\n".to_string()));
}

#[test]
fn mov_single_destination_needs_one_source() {
    let mut env = env(&["a", "b"]);
    let res = mov(&mut env, &["a", "b", "c"], None);
    assert_eq!(
        res.error,
        "Error: Expected 1 SOURCE_PATH argument because DESTINATION_PATH did not end with a /, but got 2"
    );
    assert!(res.code == FAILURE);
}

#[test]
fn mov_into_directory_asks_for_clashes() {
    let mut env = env(&["x", "y", "d/x"]);
    let res = mov(&mut env, &["x", "y", "d/"], Some("y"));
    assert_eq!(res.prompt, "Overwrite file \"d/x\"? [Y/n]");
    assert!(res.code == SUCCESS);
    assert_eq!(env.read("d/x"), "x");
    assert_eq!(env.read("d/y"), "y");
    assert!(!env.has("x"));
}

#[test]
fn mov_into_where_all_sources_already_are() {
    let mut env = env(&["d/x"]);
    let res = mov(&mut env, &["d/x", "d/"], None);
    assert!(res.code == SUCCESS);
    assert_eq!(res.output, "\"d/x\" is already located at \"d/\"");
    assert_eq!(env.read("d/x"), "d/x");
}

#[test]
fn mov_source_without_name_fails() {
    let mut env = env(&["d/x"]);
    let mut snap = env.snapshot(&["d/"]);
    snap.canonical.push(("d/..".to_string(), "/work".to_string()));
    let opts = StandardOptions { force: false, silent: false, dry_run: false, color: false, no_color: false };
    let o = run_move(&opts, &vec!["d/..".to_string()], "d/", false, &snap, false);
    let res = finish(&mut env, o, false);
    assert_eq!(res.error, "Error: \"d/..\" has no file name");
    assert!(res.code == FAILURE);
}

#[test]
fn ren_reports_in_color_and_creates_parent() {
    let mut env = env(&["src", "deep/x"]);
    let snap = env.snapshot(&["src", "deep/new/dst"]);
    let opts = StandardOptions { force: false, silent: false, dry_run: false, color: true, no_color: false };
    let o = run_rename(Renamer::Ren, &opts, "src", "deep/new/dst", &snap, false);
    let res = finish(&mut env, o, false);
    assert_eq!(
        res.output,
        format!("{} {} -> {}{}", "R".bright_green(), "src".bright_red(), "deep/", "new/dst".bright_green())
    );
    assert_eq!(env.read("deep/new/dst"), "src");
}

#[test]
fn del_dry_run_reports_but_keeps() {
    let mut env = env(&["foo"]);
    let res = del(&mut env, &["foo", "--dry-run", "--force"], None);
    assert_eq!(res.output, "D foo".bright_red().to_string());
    assert!(env.has("foo"));
}

#[test]
fn rem_silent_force_prints_nothing() {
    let mut env = env(&["foo"]);
    let res = rem(&mut env, &["foo", "--silent", "--force"], None);
    assert_eq!(res.output, "");
    assert!(res.code == SUCCESS);
    assert!(!env.has("foo"));
}

#[test]
fn removal_endings() {
    let opts = StandardOptions { force: false, silent: false, dry_run: false, color: false, no_color: false };
    let (steps, code) = finish_removal(Remover::Rem, &opts, false);
    assert_eq!(steps, vec![Step::Complain("Error: Some existing files or directories could not be deleted".to_string())]);
    assert!(code == FAILURE);
    let (steps, code) = finish_removal(Remover::Del, &opts, false);
    assert!(steps.is_empty());
    assert!(code == FAILURE);
    let info = EntryInfo { is_dir: true, len: 0 };
    assert_eq!(removal_failure("d", info, "denied"), "Error for directory \"d\": denied");
}

#[test]
fn nef_notes_existing_empty_file() {
    let mut env = env(&["a"]);
    env.write("a", "");
    let res = nef(&mut env, &["a"], None);
    assert_eq!(res.output, "Empty file \"a\" already exists".bright_green().to_string());
    assert!(res.code == SUCCESS);
}

#[test]
fn nef_replaces_directory_after_confirmation() {
    let mut env = env(&["a/b"]);
    let res = nef(&mut env, &["a", "text"], Some("y"));
    assert_eq!(res.prompt, "Directory \"a\" already exists, replace it? [Y/n]");
    assert!(res.code == SUCCESS);
    assert_eq!(env.read("a"), "text");
}
