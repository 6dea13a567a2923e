use ascetic_vis::error::InnerError;
use ascetic_vis::{CrumbId, GroupId};

fn message(inner: &InnerError, crumb_text: &str) -> String {
    let mut out = Vec::new();
    inner.write_message(&mut out, crumb_text.as_bytes());
    String::from_utf8(out).unwrap()
}

#[test]
fn messages_name_ids_and_indices() {
    assert_eq!(message(&InnerError::CrumbMissingForId(CrumbId(7)), ""), "Crumb missing for CrumbId(7)");
    assert_eq!(message(&InnerError::GroupMissingForId(GroupId(0)), ""), "Group missing for GroupId(0)");
    assert_eq!(message(&InnerError::LayerMissingForId(GroupId(12)), ""), "Layer missing for GroupId(12)");
    assert_eq!(message(&InnerError::GroupReuseAttempt(GroupId(305)), ""), "Reuse attempt for GroupId(305)");
    assert_eq!(
        message(&InnerError::CrumbsOfAGroupOverflow(GroupId(2), 10), ""),
        "Index 10 overflows grouped crumbs for GroupId(2)"
    );
    assert_eq!(
        message(&InnerError::GroupsOfAGroupOverflow(GroupId(2), 9), ""),
        "Index 9 overflows grouped groups for GroupId(2)"
    );
}

#[test]
fn builder_messages_name_the_items() {
    assert_eq!(
        message(&InnerError::BuilderOverflow("Label".to_string(), 3), ""),
        "Attempt to override declared number of 3 Label in a builder"
    );
    assert_eq!(message(&InnerError::BuilderUnresolved("Pin".to_string()), ""), "Unresolved Pin in a builder");
}

#[test]
fn mismatch_messages_use_the_crumb_text() {
    let inner = InnerError::CrumbMismatch(
        "Circle".to_string(),
        ascetic_vis::Crumb::Line(kurbo::Line::new((0.0, 0.0), (1.0, 1.0))),
        CrumbId(4),
    );
    assert_eq!(message(&inner, "a line"), "Unexpected a line instead of Circle for CrumbId(4)");
    assert_eq!(
        message(&InnerError::GroupMissingForId(GroupId(usize::MAX)), ""),
        format!("Group missing for GroupId({})", usize::MAX)
    );
}
