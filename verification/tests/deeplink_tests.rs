use taskcap::deeplink::{parse_priority, parse_taskcap_url, DeepLinkAction};
use taskcap::models::TaskPriority;

#[test]
fn parses_add_with_priority() {
    let action = parse_taskcap_url("taskcap://add?title=周报&priority=high").unwrap();
    match action {
        DeepLinkAction::Add { title, notes, priority } => {
            assert_eq!(title, "周报");
            assert_eq!(notes, "");
            assert_eq!(priority, TaskPriority::High);
        }
        _ => panic!("expected add action"),
    }
}

#[test]
fn parses_show_and_focus_aliases() {
    assert!(matches!(parse_taskcap_url("taskcap://show").unwrap(), DeepLinkAction::Show));
    assert!(matches!(parse_taskcap_url("taskcap://start").unwrap(), DeepLinkAction::Focus));
    assert!(matches!(parse_taskcap_url("taskcap://done").unwrap(), DeepLinkAction::Complete));
}

#[test]
fn rejects_other_schemes_and_actions() {
    assert!(parse_taskcap_url("https://add?title=x").is_err());
    assert!(parse_taskcap_url("taskcap://explode").is_err());
    assert!(parse_taskcap_url("not a url").is_err());
}

#[test]
fn add_without_title_gives_an_empty_title() {
    match parse_taskcap_url("taskcap://new?notes=x").unwrap() {
        DeepLinkAction::Add { title, notes, priority } => {
            assert_eq!(title, "");
            assert_eq!(notes, "x");
            assert_eq!(priority, TaskPriority::Medium);
        }
        _ => panic!("expected add action"),
    }
}

#[test]
fn priority_words() {
    assert_eq!(parse_priority("high"), TaskPriority::High);
    assert_eq!(parse_priority("高"), TaskPriority::High);
    assert_eq!(parse_priority("low"), TaskPriority::Low);
    assert_eq!(parse_priority("whatever"), TaskPriority::Medium);
}
