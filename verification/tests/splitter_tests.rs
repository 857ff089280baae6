use argsplitter::ArgError;
use argsplitter::ArgSplitter;
use argsplitter::Item;
use argsplitter::RawString;

fn os(s: &str) -> RawString {
    RawString::new(s.as_bytes().to_vec())
}

fn sp_from(args: &[&str]) -> ArgSplitter {
    let argv: Vec<RawString> = args.iter().map(|s| os(s)).collect();
    ArgSplitter::from(argv)
}

#[test]
fn test_completely_empty() {
    let mut sp = ArgSplitter::from(vec![]);

    assert_eq!(sp.argv0(), None);
    assert_eq!(sp.has_param_attached(), false);
    assert_eq!(sp.item_os(), Ok(None));
    assert_eq!(sp.has_param_attached(), false);
}

#[test]
fn test_no_args() {
    let mut sp = sp_from(&["test"]);

    assert_eq!(sp.argv0(), Some(&os("test")));
    assert_eq!(sp.has_param_attached(), false);
    assert_eq!(sp.item_os(), Ok(None));
    assert_eq!(sp.has_param_attached(), false);
}

#[test]
fn test_split_short() {
    let mut sp = sp_from(&["test", "-vx", "-n", "ARGS"]);

    assert_eq!(sp.has_param_attached(), false);

    assert_eq!(sp.item(), Ok(Some(Item::Flag("-v".into()))));
    assert_eq!(sp.has_param_attached(), true);
    assert_eq!(sp.clone().param(), Ok("x".to_owned()));

    assert_eq!(sp.item(), Ok(Some(Item::Flag("-x".into()))));
    assert_eq!(sp.has_param_attached(), false);
    assert_eq!(
        sp.clone().param(),
        Err(ArgError::ParameterMissing("-x".into()))
    );

    assert_eq!(sp.item(), Ok(Some(Item::Flag("-n".into()))));
    assert_eq!(sp.has_param_attached(), false);
    assert_eq!(sp.clone().param(), Ok("ARGS".into()));

    assert_eq!(sp.item(), Ok(Some(Item::Word("ARGS".into()))));
    assert_eq!(sp.has_param_attached(), false);
    // must not call .param() after getting a Word.
}

#[test]
fn test_split_long() {
    let mut sp = sp_from(&["test", "--foo", "--bar=BAR", "--baz", "ARGS"]);

    assert_eq!(sp.has_param_attached(), false);

    assert_eq!(sp.item(), Ok(Some(Item::Flag("--foo".into()))));
    assert_eq!(sp.has_param_attached(), false);
    assert_eq!(
        sp.clone().param(),
        Err(ArgError::ParameterMissing("--foo".into()))
    );

    assert_eq!(sp.item(), Ok(Some(Item::Flag("--bar".into()))));
    assert_eq!(sp.has_param_attached(), true);
    assert_eq!(sp.param(), Ok("BAR".into()));
    assert_eq!(sp.has_param_attached(), false);
    assert_eq!(
        sp.clone().param(),
        Err(ArgError::ParameterMissing("--bar".into()))
    );

    assert_eq!(sp.item(), Ok(Some(Item::Flag("--baz".into()))));
    assert_eq!(sp.has_param_attached(), false);
    assert_eq!(sp.clone().param(), Ok("ARGS".into()));

    assert_eq!(sp.item(), Ok(Some(Item::Word("ARGS".into()))));
    assert_eq!(sp.has_param_attached(), false);
    // must not call .param() after getting a Word.
}
