//! Which external formatter a language is handed to, and with which
//! arguments.
use vstd::prelude::*;

verus! {

#[derive(Clone, Debug)]
pub enum Language {
    Rust,
    JavaScript,
    TypeScript,
    Python,
    Go,
    Html,
    Css,
    Json,
    Other(String),
}

/// Formats source code with the language's usual tool.
pub struct Formatter;

/// A formatter to run: the program and its arguments.  It reads the code
/// on standard input and writes the formatted code on standard output.
pub struct FormatCommand {
    pub program: String,
    pub args: Vec<String>,
}

pub open spec fn command_view(c: FormatCommand) -> (Seq<char>, Seq<Seq<char>>) {
    (c.program@, c.args@.map_values(|a: String| a@))
}

/// The parser prettier is told to use.
pub open spec fn prettier_parser(lang: Language) -> Seq<char> {
    match lang {
        Language::JavaScript => "babel"@,
        Language::TypeScript => "typescript"@,
        Language::Html => "html"@,
        Language::Css => "css"@,
        Language::Json => "json"@,
        _ => "babel"@,
    }
}

/// The formatter for a language: rustfmt for Rust, prettier for the web
/// languages, black for Python, gofmt for Go, none for anything else (the
/// code is then kept as it is).
pub open spec fn command_of(lang: Language) -> Option<(Seq<char>, Seq<Seq<char>>)> {
    match lang {
        Language::Rust => Some(("rustfmt"@, Seq::empty())),
        Language::JavaScript | Language::TypeScript | Language::Html | Language::Css | Language::Json => Some(
            ("prettier"@, seq!["--parser"@, prettier_parser(lang)]),
        ),
        Language::Python => Some(("black"@, seq!["-"@, "--quiet"@])),
        Language::Go => Some(("gofmt"@, Seq::empty())),
        Language::Other(_) => None,
    }
}

fn command(program: &str, args: Vec<String>) -> (r: FormatCommand)
    ensures
        r.program@ == program@,
        r.args@ == args@,
{
    FormatCommand { program: program.to_owned(), args }
}

impl Formatter {
    /// The command that formats `lang`, if one does.
    pub fn command_for(lang: &Language) -> (r: Option<FormatCommand>)
        ensures
            match r {
                Some(c) => command_of(*lang) == Some(command_view(c)),
                None => command_of(*lang) is None,
            },
    {
        match lang {
            Language::Rust => {
                let c = command("rustfmt", Vec::new());
                assert(command_view(c).1 =~= Seq::<Seq<char>>::empty());
                Some(c)
            },
            Language::JavaScript | Language::TypeScript | Language::Html | Language::Css | Language::Json => {
                let parser = match lang {
                    Language::JavaScript => "babel",
                    Language::TypeScript => "typescript",
                    Language::Html => "html",
                    Language::Css => "css",
                    Language::Json => "json",
                    _ => "babel",
                };
                let mut args: Vec<String> = Vec::new();
                args.push("--parser".to_owned());
                args.push(parser.to_owned());
                let c = command("prettier", args);
                assert(command_view(c).1 =~= seq!["--parser"@, prettier_parser(*lang)]);
                Some(c)
            },
            Language::Python => {
                let mut args: Vec<String> = Vec::new();
                args.push("-".to_owned());
                args.push("--quiet".to_owned());
                let c = command("black", args);
                assert(command_view(c).1 =~= seq!["-"@, "--quiet"@]);
                Some(c)
            },
            Language::Go => {
                let c = command("gofmt", Vec::new());
                assert(command_view(c).1 =~= Seq::<Seq<char>>::empty());
                Some(c)
            },
            Language::Other(_) => None,
        }
    }

    /// The formatted code: the tool's output when it succeeded, otherwise
    /// the code as it was.
    pub fn formatted(content: &str, output: Option<String>) -> (r: String)
        ensures
            match output {
                Some(o) => r@ == o@,
                None => r@ == content@,
            },
    {
        match output {
            Some(o) => o,
            None => content.to_owned(),
        }
    }
}

} // verus!
