use archive_index::error::IndexError;
use archive_index::mask::Mask;
use archive_index::parser::{
    is_yes, parse_instructions, parse_leading_zeros, parse_mask, prefix, Invocation, Param,
    DEFAULT_TEMPLATE,
};

fn param(name: &str, value: &str) -> Param {
    Param { name: name.to_string(), value: value.to_string() }
}

fn opt_in(params: Vec<Param>) -> Invocation {
    Invocation { name: "User:HBC Archive Indexerbot/OptIn".to_string(), params }
}

#[test]
fn test_is_yes() {
    assert!(is_yes("yes"));
    assert!(is_yes("<yes>"));
    assert!(!is_yes("no"));
    assert!(!is_yes("<no>"));
}

#[test]
fn test_prefix() {
    assert_eq!(&prefix("/Index", "Title"), "Title/Index");
    assert_eq!(&prefix("Foo index", "Title"), "Foo index");
}

#[test]
fn is_yes_ignores_case() {
    assert!(is_yes("YES"));
    assert!(is_yes("<Yes>"));
    assert!(!is_yes("y"));
}

#[test]
fn leading_zeros_defaults_to_zero() {
    assert_eq!(parse_leading_zeros(None), 0);
    assert_eq!(parse_leading_zeros(Some("3".to_string())), 3);
    assert_eq!(parse_leading_zeros(Some("+7".to_string())), 7);
    assert_eq!(parse_leading_zeros(Some("two".to_string())), 0);
    assert_eq!(parse_leading_zeros(Some("".to_string())), 0);
    assert_eq!(parse_leading_zeros(Some("4294967295".to_string())), 4294967295);
    assert_eq!(parse_leading_zeros(Some("4294967296".to_string())), 0);
}

#[test]
fn mask_numerical_with_leading_zeros() {
    let params = vec![param("leading_zeros", "2")];
    match parse_mask("/Archive <#>", "Talk:X", &params) {
        Ok(Mask::Numerical { mask, leading_zeros }) => {
            assert_eq!(mask, "Talk:X/Archive <#>");
            assert_eq!(leading_zeros, 2);
        }
        _ => panic!("expected a numerical mask"),
    }
}

#[test]
fn mask_missing_closing_bracket_is_completed() {
    match parse_mask("Talk:Y/Archive <#", "Talk:X", &vec![]) {
        Ok(Mask::Numerical { mask, leading_zeros }) => {
            assert_eq!(mask, "Talk:Y/Archive <#>");
            assert_eq!(leading_zeros, 0);
        }
        _ => panic!("expected a numerical mask"),
    }
}

#[test]
fn mask_dated_forms() {
    let params = vec![param("first_archive", "Talk:X/Archive March 2020")];
    match parse_mask("/Archive <month> <year>", "Talk:X", &params) {
        Ok(Mask::Monthly { mask, first_archive }) => {
            assert_eq!(mask, "Talk:X/Archive <month> <year>");
            assert_eq!(first_archive, "Talk:X/Archive March 2020");
        }
        _ => panic!("expected a monthly mask"),
    }
    match parse_mask("/Archive <year>", "Talk:X", &params) {
        Ok(Mask::Yearly { mask, .. }) => assert_eq!(mask, "Talk:X/Archive <year>"),
        _ => panic!("expected a yearly mask"),
    }
}

#[test]
fn mask_errors() {
    assert!(matches!(
        parse_mask("/Archive <year>", "Talk:X", &vec![]),
        Err(IndexError::MissingFirstArchive)
    ));
    assert!(matches!(
        parse_mask("/Archive <foo>", "Talk:X", &vec![]),
        Err(IndexError::UnrecognizedMask)
    ));
}

#[test]
fn mask_single_page() {
    match parse_mask("Talk:Other", "Talk:X", &vec![]) {
        Ok(Mask::SinglePage { title }) => assert_eq!(title, "Talk:Other"),
        _ => panic!("expected a single page"),
    }
}

#[test]
fn instructions_defaults_and_indexhere() {
    let invs = vec![
        Invocation { name: "Other".to_string(), params: vec![param("mask", "x")] },
        opt_in(vec![param("indexhere", "Yes")]),
    ];
    let ins = parse_instructions("Talk:X", &invs).unwrap();
    assert_eq!(ins.origin, "Talk:X");
    assert_eq!(ins.target, "Talk:X/Archive index");
    assert_eq!(ins.template, DEFAULT_TEMPLATE);
    assert_eq!(ins.masks.len(), 2);
    match &ins.masks[0] {
        Mask::Numerical { mask, leading_zeros } => {
            assert_eq!(mask, "Talk:X/Archive <#>");
            assert_eq!(*leading_zeros, 0);
        }
        _ => panic!("expected the default numerical mask"),
    }
    match &ins.masks[1] {
        Mask::SinglePage { title } => assert_eq!(title, "Talk:X"),
        _ => panic!("expected the page itself"),
    }
}

#[test]
fn instructions_numbered_masks_stop_at_gap() {
    let invs = vec![opt_in(vec![
        param("mask", "/A <#>"),
        param("mask1", "/B"),
        param("mask2", "Talk:C"),
        param("mask4", "/D"),
        param("target", "Elsewhere"),
        param("template", "User:T"),
    ])];
    let ins = parse_instructions("Talk:X", &invs).unwrap();
    let shown: Vec<String> = ins.masks.iter().map(|m| m.display()).collect();
    assert_eq!(shown, vec!["Talk:X/A <#>", "Talk:X/B", "Talk:C"]);
    assert_eq!(ins.target, "Elsewhere");
    assert_eq!(ins.template, "User:T");
}

#[test]
fn instructions_template_placeholder_means_default() {
    let invs = vec![opt_in(vec![param("template", "template location")])];
    assert_eq!(parse_instructions("P", &invs).unwrap().template, DEFAULT_TEMPLATE);
    let invs = vec![opt_in(vec![param("template", "")])];
    assert_eq!(parse_instructions("P", &invs).unwrap().template, DEFAULT_TEMPLATE);
}

#[test]
fn instructions_errors() {
    let invs = vec![Invocation { name: "Other".to_string(), params: vec![] }];
    assert!(matches!(parse_instructions("P", &invs), Err(IndexError::MissingConfiguration)));
    let invs = vec![opt_in(vec![param("mask", "/A <bad>")])];
    assert!(matches!(parse_instructions("P", &invs), Err(IndexError::UnrecognizedMask)));
}
