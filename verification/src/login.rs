//! The command that saves a token for a registry.

use crate::command_prelude::{
    opt, string_value, subcommand, value_for, App, AppArgView, AppView, Arg, ArgMatches, ArgValue,
    ArgView,
};
use crate::lookup::{is_first, lemma_first_where, lemma_found, lemma_not_found};
use vstd::prelude::*;

verus! {

/// The arguments of the command, in the order of its help: the shared switch
/// that silences it, the token, the deprecated and hidden `--host`, and
/// `--registry`, which replaces it.
pub open spec fn login_args() -> Seq<AppArgView> {
    seq![
        AppArgView::Quiet,
        AppArgView::Own(
            ArgView { name: "token"@, long: None, help: None, value_name: None, hidden: false },
        ),
        AppArgView::Own(
            ArgView {
                name: "host"@,
                long: Some("host"@),
                help: Some("Host to set the token for"@),
                value_name: Some("HOST"@),
                hidden: true,
            },
        ),
        AppArgView::Own(
            ArgView {
                name: "registry"@,
                long: Some("registry"@),
                help: Some("Registry to use"@),
                value_name: Some("REGISTRY"@),
                hidden: false,
            },
        ),
    ]
}

/// Describes the command.
pub fn cli() -> (app: App)
    ensures
        app@ == (AppView {
            name: "login"@,
            about: Some(
                "Save an api token from the registry locally. If token is not specified, it will be read from stdin."@,
            ),
            args: login_args(),
            after_help: Some("Run `cargo help login` for more detailed information.\n"@),
        }),
{
    let app: App = subcommand("login")
        .about("Save an api token from the registry locally. If token is not specified, it will be read from stdin.")
        .arg_quiet()
        .arg(Arg::with_name("token"))
        // --host is deprecated (use --registry instead)
        .arg(opt("host", "Host to set the token for").value_name("HOST").hidden(true))
        .arg(opt("registry", "Registry to use").value_name("REGISTRY"))
        .after_help("Run `cargo help login` for more detailed information.\n");
    assert(app@.args =~= login_args());
    app
}

/// What a registry is asked to log in with.
#[derive(Debug)]
pub struct LoginRequest {
    /// The token to save; it is read from standard input if absent.
    pub token: Option<String>,
    /// The registry to save it for; the default one if absent.
    pub registry: Option<String>,
}

/// Reads what to log in with from the command line.
pub fn login_request(args: &ArgMatches) -> (request: LoginRequest)
    ensures
        string_value(request.token) == args.spec_value_of("token"@),
        string_value(request.registry) == args.spec_value_of("registry"@),
{
    LoginRequest { token: args.value_of("token"), registry: args.value_of("registry") }
}

/// A value for one argument does not change what is given for another.
proof fn lemma_other_value(
    args: ArgMatches,
    more: ArgMatches,
    k: int,
    other: ArgValue,
    name: Seq<char>,
)
    requires
        0 <= k <= args.values@.len(),
        more.values@ == args.values@.insert(k, other),
        other.name@ != name,
    ensures
        more.spec_value_of(name) == args.spec_value_of(name),
{
    let p = value_for(name);
    let old_values = args.values@;
    let new_values = more.values@;
    lemma_first_where(old_values, p);
    if exists|i: int| is_first(old_values, p, i) {
        let i = choose|i: int| is_first(old_values, p, i);
        let at = if i < k {
            i
        } else {
            i + 1
        };
        assert(new_values[at] == old_values[i]);
        assert forall|j: int| 0 <= j < at implies !p(#[trigger] new_values[j]) by {
            if j < k {
                assert(new_values[j] == old_values[j]);
            } else if j > k {
                assert(new_values[j] == old_values[j - 1]);
            }
        }
        assert(is_first(new_values, p, at));
        lemma_found(old_values, p, i);
        lemma_found(new_values, p, at);
    } else {
        assert forall|j: int| 0 <= j < new_values.len() implies !p(#[trigger] new_values[j]) by {
            if j < k {
                assert(new_values[j] == old_values[j]);
            } else if j > k {
                assert(new_values[j] == old_values[j - 1]);
            }
        }
        lemma_not_found(new_values, p);
    }
}

/// Only the token and the registry matter: whatever else is given, such as
/// `--host`, and wherever it is given, does not change what is logged in with.
pub proof fn law_only_token_and_registry(
    args: ArgMatches,
    more: ArgMatches,
    k: int,
    other: ArgValue,
)
    requires
        0 <= k <= args.values@.len(),
        more.values@ == args.values@.insert(k, other),
        other.name@ != "token"@,
        other.name@ != "registry"@,
    ensures
        more.spec_value_of("token"@) == args.spec_value_of("token"@),
        more.spec_value_of("registry"@) == args.spec_value_of("registry"@),
{
    lemma_other_value(args, more, k, other, "token"@);
    lemma_other_value(args, more, k, other, "registry"@);
}

} // verus!
