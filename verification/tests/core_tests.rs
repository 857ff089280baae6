use argsplitter::tokenizer::ArgState;
use argsplitter::tokenizer::Core;
use argsplitter::OwnedItem;
use argsplitter::RawString;

fn os(s: &str) -> RawString {
    RawString::new(s.as_bytes().to_vec())
}

fn badly_encoded_text() -> RawString {
    argsplitter::unix::badly_encoded()
}

fn argstate(s: &str) -> ArgState {
    ArgState::from(Some(os(s)))
}

fn badly(prefix: &str) -> RawString {
    let mut v = prefix.as_bytes().to_vec();
    v.extend_from_slice(badly_encoded_text().as_bytes());
    RawString::new(v)
}

fn bad() -> RawString {
    badly("banana")
}

#[test]
fn test_argstate() {
    assert_eq!(ArgState::from(None), ArgState::End);

    assert_eq!(argstate(""), ArgState::Word(os("")));
    assert_eq!(argstate("-"), ArgState::Word(os("-")));
    assert_eq!(ArgState::from(Some(bad())), ArgState::Word(bad()));

    assert_eq!(argstate("--foo"), ArgState::LongOption("--foo".into(), None));
    assert_eq!(
        argstate("--foo="),
        ArgState::LongOption("--foo".into(), Some(os("")))
    );
    assert_eq!(
        argstate("--foo=bar"),
        ArgState::LongOption("--foo".into(), Some(os("bar")))
    );
    assert_eq!(
        argstate("--foo=bar=baz"),
        ArgState::LongOption("--foo".into(), Some(os("bar=baz")))
    );
    assert_eq!(argstate("--"), ArgState::LongOption("--".into(), None));
    assert_eq!(
        ArgState::from(Some(badly("--foo=X"))),
        ArgState::LongOption("--foo".into(), Some(badly("X")))
    );
    assert_eq!(
        ArgState::from(Some(badly("--"))),
        ArgState::CannotDecode(badly("--"))
    );

    assert_eq!(argstate("---"), ArgState::LongOption("---".into(), None));

    assert_eq!(
        argstate("-x"),
        ArgState::ShortOptionsNew('x', "".into(), os(""))
    );
    assert_eq!(
        argstate("-xvw"),
        ArgState::ShortOptionsNew('x', "vw".into(), os(""))
    );
    assert_eq!(
        ArgState::from(Some(badly("-"))),
        ArgState::CannotDecode(badly("-"))
    );
    assert_eq!(
        ArgState::from(Some(badly("-f"))),
        ArgState::ShortOptionsNew('f', "".into(), badly(""))
    );
    assert_eq!(
        ArgState::from(Some(badly("-fv"))),
        ArgState::ShortOptionsNew('f', "v".into(), badly(""))
    );
}

#[test]
fn test_empty() {
    let mut core = Core::new(vec![]);

    assert_eq!(core.at_word(), false);
    assert_eq!(core.param_ready(), false);
    assert_eq!(core.clone().param(), None);

    assert_eq!(core.take_item(), Ok(None));
    assert_eq!(core.take_item(), Ok(None));
    assert_eq!(core.take_item(), Ok(None));
}

#[test]
#[allow(non_snake_case)]
fn test_vx_ARG() {
    let mut core = Core::new(vec![os("-vx"), os("ARG")]);

    assert_eq!(core.at_word(), false);
    assert_eq!(core.param_ready(), false);
    assert_eq!(core.clone().param(), None);

    assert_eq!(core.take_item(), Ok(Some(OwnedItem::Flag("-v".into()))));
    assert_eq!(core.at_word(), false);
    assert_eq!(core.param_ready(), true);
    assert_eq!(core.clone().param(), Some(os("x")));

    assert_eq!(core.take_item(), Ok(Some(OwnedItem::Flag("-x".into()))));
    assert_eq!(core.at_word(), true);
    assert_eq!(core.param_ready(), false);
    assert_eq!(core.clone().param(), None);

    assert_eq!(core.take_item(), Ok(Some(OwnedItem::Word(os("ARG")))));
    assert_eq!(core.at_word(), false);
    assert_eq!(core.param_ready(), false);
    assert_eq!(core.clone().param(), None);

    assert_eq!(core.at_word(), false);
    assert_eq!(core.param_ready(), false);
    assert_eq!(core.clone().param(), None);
    assert_eq!(core.take_item(), Ok(None));
}

#[test]
#[allow(non_snake_case)]
fn test_vfFILE_ARG() {
    let mut core = Core::new(vec![os("-vfFILE"), os("ARG")]);

    assert_eq!(core.at_word(), false);
    assert_eq!(core.param_ready(), false);
    assert_eq!(core.clone().param(), None);

    assert_eq!(core.take_item(), Ok(Some(OwnedItem::Flag("-v".into()))));
    assert_eq!(core.at_word(), false);
    assert_eq!(core.param_ready(), true);
    assert_eq!(core.clone().param(), Some(os("fFILE")));

    assert_eq!(core.take_item(), Ok(Some(OwnedItem::Flag("-f".into()))));
    assert_eq!(core.at_word(), false);
    assert_eq!(core.param_ready(), true);

    assert_eq!(core.param(), Some(os("FILE")));
    assert_eq!(core.at_word(), true);
    assert_eq!(core.param_ready(), false);
    assert_eq!(core.clone().param(), None);

    assert_eq!(core.take_item(), Ok(Some(OwnedItem::Word(os("ARG")))));
    assert_eq!(core.at_word(), false);
    assert_eq!(core.param_ready(), false);
    assert_eq!(core.clone().param(), None);

    assert_eq!(core.at_word(), false);
    assert_eq!(core.param_ready(), false);
    assert_eq!(core.clone().param(), None);
    assert_eq!(core.take_item(), Ok(None));
}

#[test]
#[allow(non_snake_case)]
fn test_file_ARG() {
    let mut core = Core::new(vec![os("--file"), os("ARG")]);

    assert_eq!(core.at_word(), false);
    assert_eq!(core.param_ready(), false);
    assert_eq!(core.clone().param(), None);

    assert_eq!(core.take_item(), Ok(Some(OwnedItem::Flag("--file".into()))));
    assert_eq!(core.at_word(), true);
    assert_eq!(core.param_ready(), false);
    assert_eq!(core.clone().param(), None);

    assert_eq!(core.take_item(), Ok(Some(OwnedItem::Word(os("ARG")))));
    assert_eq!(core.at_word(), false);
    assert_eq!(core.param_ready(), false);
    assert_eq!(core.clone().param(), None);

    assert_eq!(core.at_word(), false);
    assert_eq!(core.param_ready(), false);
    assert_eq!(core.clone().param(), None);
    assert_eq!(core.take_item(), Ok(None));
}

#[test]
#[allow(non_snake_case)]
fn test_fileFILE_ARG() {
    let mut core = Core::new(vec![os("--file=FILE"), os("ARG")]);

    assert_eq!(core.at_word(), false);
    assert_eq!(core.param_ready(), false);
    assert_eq!(core.clone().param(), None);

    assert_eq!(core.take_item(), Ok(Some(OwnedItem::Flag("--file".into()))));
    assert_eq!(core.at_word(), false);
    assert_eq!(core.param_ready(), true);

    assert_eq!(core.param(), Some(os("FILE")));
    assert_eq!(core.at_word(), true);
    assert_eq!(core.param_ready(), false);
    assert_eq!(core.clone().param(), None);

    assert_eq!(core.take_item(), Ok(Some(OwnedItem::Word(os("ARG")))));
    assert_eq!(core.at_word(), false);
    assert_eq!(core.param_ready(), false);
    assert_eq!(core.clone().param(), None);

    assert_eq!(core.at_word(), false);
    assert_eq!(core.param_ready(), false);
    assert_eq!(core.clone().param(), None);
    assert_eq!(core.take_item(), Ok(None));
}

#[test]
#[allow(non_snake_case)]
fn test_fileEMPTY_ARG() {
    let mut core = Core::new(vec![os("--file="), os("ARG")]);

    assert_eq!(core.at_word(), false);
    assert_eq!(core.param_ready(), false);
    assert_eq!(core.clone().param(), None);

    assert_eq!(core.take_item(), Ok(Some(OwnedItem::Flag("--file".into()))));
    assert_eq!(core.at_word(), false);
    assert_eq!(core.param_ready(), true);

    assert_eq!(core.param(), Some(os("")));
    assert_eq!(core.at_word(), true);
    assert_eq!(core.param_ready(), false);
    assert_eq!(core.clone().param(), None);

    assert_eq!(core.take_item(), Ok(Some(OwnedItem::Word(os("ARG")))));
    assert_eq!(core.at_word(), false);
    assert_eq!(core.param_ready(), false);
    assert_eq!(core.clone().param(), None);

    assert_eq!(core.at_word(), false);
    assert_eq!(core.param_ready(), false);
    assert_eq!(core.clone().param(), None);
    assert_eq!(core.take_item(), Ok(None));
}

#[test]
fn test_dashes() {
    let mut core = Core::new(vec![os("-"), os("--")]);

    assert_eq!(core.take_item(), Ok(Some(OwnedItem::Word(os("-")))));
    assert_eq!(core.take_item(), Ok(Some(OwnedItem::Flag("--".to_string()))));
}
