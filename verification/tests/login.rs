use cargo_units::command_prelude::{AppArg, ArgMatches, ArgValue};
use cargo_units::login::{cli, login_request};

fn given(values: &[(&str, &str)]) -> ArgMatches {
    let mut matches = ArgMatches { values: Vec::new() };
    for (name, value) in values {
        matches.values.push(ArgValue { name: name.to_string(), value: value.to_string() });
    }
    matches
}

#[test]
fn command_is_described() {
    let app = cli();
    assert_eq!(app.name, "login");
    assert_eq!(
        app.about,
        Some(
            "Save an api token from the registry locally. \
             If token is not specified, it will be read from stdin."
        )
    );
    assert_eq!(
        app.after_help,
        Some("Run `cargo help login` for more detailed information.\n")
    );
    assert_eq!(app.args.len(), 4);
    assert!(matches!(app.args[0], AppArg::Quiet));
    let mut names = Vec::new();
    for arg in &app.args[1..] {
        match arg {
            AppArg::Own(arg) => {
                names.push((arg.name, arg.long, arg.help, arg.value_name, arg.hidden))
            }
            AppArg::Quiet => panic!("listed twice"),
        }
    }
    assert_eq!(
        names,
        vec![
            ("token", None, None, None, false),
            ("host", Some("host"), Some("Host to set the token for"), Some("HOST"), true),
            ("registry", Some("registry"), Some("Registry to use"), Some("REGISTRY"), false),
        ]
    );
}

#[test]
fn request_is_read() {
    let request = login_request(&given(&[("registry", "mirror"), ("token", "secret")]));
    assert_eq!(request.token.as_deref(), Some("secret"));
    assert_eq!(request.registry.as_deref(), Some("mirror"));
}

#[test]
fn nothing_given() {
    let request = login_request(&given(&[]));
    assert_eq!(request.token, None);
    assert_eq!(request.registry, None);
}

#[test]
fn first_value_counts() {
    let request = login_request(&given(&[("token", "a"), ("token", "b")]));
    assert_eq!(request.token.as_deref(), Some("a"));
}

#[test]
fn host_does_not_matter() {
    let request = login_request(&given(&[("host", "h"), ("token", "t"), ("host", "h")]));
    assert_eq!(request.token.as_deref(), Some("t"));
    assert_eq!(request.registry, None);
}
