//! What commands are described with, and what is read from their command line.

use crate::lookup::{first_where, is_first, lemma_first_where, lemma_found, lemma_not_found};
use vstd::prelude::*;

verus! {

/// An argument that a command takes.
#[derive(Debug)]
pub struct Arg {
    pub name: &'static str,
    /// The name of the option that the argument is given with; it is positional
    /// if absent.
    pub long: Option<&'static str>,
    pub help: Option<&'static str>,
    /// What stands for the value in the help.
    pub value_name: Option<&'static str>,
    /// Whether the argument is left out of the help.
    pub hidden: bool,
}

/// The value of an [`Arg`].
pub struct ArgView {
    pub name: Seq<char>,
    pub long: Option<Seq<char>>,
    pub help: Option<Seq<char>>,
    pub value_name: Option<Seq<char>>,
    pub hidden: bool,
}

/// The value of a text that may be absent.
pub open spec fn text_value(text: Option<&'static str>) -> Option<Seq<char>> {
    match text {
        Some(text) => Some(text@),
        None => None,
    }
}

impl View for Arg {
    type V = ArgView;

    open spec fn view(&self) -> ArgView {
        ArgView {
            name: self.name@,
            long: text_value(self.long),
            help: text_value(self.help),
            value_name: text_value(self.value_name),
            hidden: self.hidden,
        }
    }
}

impl Arg {
    /// A positional argument.
    pub fn with_name(name: &'static str) -> (arg: Arg)
        ensures
            arg@ == (ArgView {
                name: name@,
                long: None,
                help: None,
                value_name: None,
                hidden: false,
            }),
    {
        Arg { name, long: None, help: None, value_name: None, hidden: false }
    }

    /// The same argument with a name for its value.
    pub fn value_name(self, value_name: &'static str) -> (arg: Arg)
        ensures
            arg@ == (ArgView { value_name: Some(value_name@), ..self@ }),
    {
        Arg { value_name: Some(value_name), ..self }
    }

    /// The same argument, shown in the help or left out of it.
    pub fn hidden(self, hidden: bool) -> (arg: Arg)
        ensures
            arg@ == (ArgView { hidden, ..self@ }),
    {
        Arg { hidden, ..self }
    }
}

/// An option that takes a value.
pub fn opt(name: &'static str, help: &'static str) -> (arg: Arg)
    ensures
        arg@ == (ArgView {
            name: name@,
            long: Some(name@),
            help: Some(help@),
            value_name: None,
            hidden: false,
        }),
{
    Arg { name, long: Some(name), help: Some(help), value_name: None, hidden: false }
}

/// What a command can be given.
#[derive(Debug)]
pub enum AppArg {
    /// The switch that all commands share and that silences them.
    Quiet,
    /// An argument of its own.
    Own(Arg),
}

/// The value of an [`AppArg`].
pub enum AppArgView {
    Quiet,
    Own(ArgView),
}

impl View for AppArg {
    type V = AppArgView;

    open spec fn view(&self) -> AppArgView {
        match self {
            AppArg::Quiet => AppArgView::Quiet,
            AppArg::Own(arg) => AppArgView::Own(arg@),
        }
    }
}

/// A command.
#[derive(Debug)]
pub struct App {
    pub name: &'static str,
    pub about: Option<&'static str>,
    /// What the command can be given, in the order of the help.
    pub args: Vec<AppArg>,
    pub after_help: Option<&'static str>,
}

/// The value of an [`App`].
pub struct AppView {
    pub name: Seq<char>,
    pub about: Option<Seq<char>>,
    pub args: Seq<AppArgView>,
    pub after_help: Option<Seq<char>>,
}

/// The values of a list of arguments.
pub open spec fn arg_values(args: Seq<AppArg>) -> Seq<AppArgView> {
    Seq::new(args.len(), |i: int| args[i]@)
}

impl View for App {
    type V = AppView;

    open spec fn view(&self) -> AppView {
        AppView {
            name: self.name@,
            about: text_value(self.about),
            args: arg_values(self.args@),
            after_help: text_value(self.after_help),
        }
    }
}

/// A command that has nothing but a name.
pub fn subcommand(name: &'static str) -> (app: App)
    ensures
        app@ == (AppView { name: name@, about: None, args: Seq::empty(), after_help: None }),
{
    let app: App = App { name, about: None, args: Vec::new(), after_help: None };
    assert(app@.args =~= Seq::empty());
    app
}

impl App {
    /// The same command with a description.
    pub fn about(self, about: &'static str) -> (app: App)
        ensures
            app@ == (AppView { about: Some(about@), ..self@ }),
    {
        App { about: Some(about), ..self }
    }

    /// The same command with a text after its help.
    pub fn after_help(self, after_help: &'static str) -> (app: App)
        ensures
            app@ == (AppView { after_help: Some(after_help@), ..self@ }),
    {
        App { after_help: Some(after_help), ..self }
    }

    /// The same command with one more argument.
    pub fn arg(self, arg: Arg) -> (app: App)
        ensures
            app@ == (AppView { args: self@.args.push(AppArgView::Own(arg@)), ..self@ }),
    {
        let mut app: App = self;
        app.args.push(AppArg::Own(arg));
        assert(app@.args =~= self@.args.push(AppArgView::Own(arg@)));
        app
    }

    /// The same command with the switch that silences it.
    pub fn arg_quiet(self) -> (app: App)
        ensures
            app@ == (AppView { args: self@.args.push(AppArgView::Quiet), ..self@ }),
    {
        let mut app: App = self;
        app.args.push(AppArg::Quiet);
        assert(app@.args =~= self@.args.push(AppArgView::Quiet));
        app
    }
}

/// A value that was given for an argument.
#[derive(Debug)]
pub struct ArgValue {
    pub name: String,
    pub value: String,
}

/// What was given on the command line, in order.
#[derive(Debug)]
pub struct ArgMatches {
    pub values: Vec<ArgValue>,
}

pub open spec fn value_for(name: Seq<char>) -> spec_fn(ArgValue) -> bool {
    |v: ArgValue| v.name@ == name
}

/// The value of a text that may be absent.
pub open spec fn string_value(text: Option<String>) -> Option<Seq<char>> {
    match text {
        Some(text) => Some(text@),
        None => None,
    }
}

impl ArgMatches {
    /// The first value that was given for an argument.
    pub open spec fn spec_value_of(self, name: Seq<char>) -> Option<Seq<char>> {
        match first_where(self.values@, value_for(name)) {
            Some(v) => Some(v.value@),
            None => None,
        }
    }

    /// The first value that was given for an argument, if any.
    pub fn value_of(&self, name: &str) -> (value: Option<String>)
        ensures
            string_value(value) == self.spec_value_of(name@),
    {
        let wanted: String = name.to_owned();
        let ghost p = value_for(name@);
        for i in 0..self.values.len()
            invariant
                wanted@ == name@,
                p == value_for(name@),
                forall|j: int| 0 <= j < i ==> !p(#[trigger] self.values@[j]),
        {
            if self.values[i].name == wanted {
                proof {
                    assert(is_first(self.values@, p, i as int));
                    lemma_found(self.values@, p, i as int);
                }
                return Some(self.values[i].value.clone());
            }
        }
        proof {
            lemma_not_found(self.values@, p);
        }
        None
    }
}

/// The value of an argument is the first one that was given for it, and there is one
/// exactly if one was given.
pub proof fn law_first_value(args: ArgMatches, name: Seq<char>, value: Seq<char>)
    ensures
        args.spec_value_of(name) == Some(value) <==> exists|i: int|
            {
                &&& 0 <= i < args.values@.len()
                &&& (#[trigger] args.values@[i]).name@ == name
                &&& args.values@[i].value@ == value
                &&& forall|j: int| 0 <= j < i ==> (#[trigger] args.values@[j]).name@ != name
            },
        args.spec_value_of(name) is None <==> forall|i: int|
            0 <= i < args.values@.len() ==> (#[trigger] args.values@[i]).name@ != name,
{
    let rows = args.values@;
    let p = value_for(name);
    lemma_first_where(rows, p);
    if exists|i: int| is_first(rows, p, i) {
        let i = choose|i: int| is_first(rows, p, i);
        lemma_found(rows, p, i);
        assert forall|j: int| 0 <= j < i implies (#[trigger] rows[j]).name@ != name by {
            assert(!p(rows[j]));
        }
        assert(rows[i].name@ == name);
        assert forall|k: int|
            0 <= k < rows.len() && (#[trigger] rows[k]).name@ == name && (forall|j: int|
                0 <= j < k ==> (#[trigger] rows[j]).name@ != name) implies k == i by {
            if i < k {
                assert(rows[i].name@ != name);
            }
        }
    } else {
        assert forall|j: int| 0 <= j < rows.len() implies (#[trigger] rows[j]).name@ != name by {
            assert(!p(rows[j]));
        }
    }
}

} // verus!
