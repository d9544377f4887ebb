use layout_damage::execcommand::basecommand::{
    delete_the_selection, ActiveRange, Boundary, CommandAction, Selection,
};
use layout_damage::execcommand::commands::delete::DeleteCommand;
use layout_damage::execcommand::execcommands::{
    check_support_and_enabled, command_if_command_is_supported, exec_command_for_command_id,
    selection_if_command_is_enabled,
};
use layout_damage::largest_contentful_paint_candidate::{
    CrossProcessInstant, LCPCandidate, LCPCandidateID, LargestContentfulPaint,
};
use layout_damage::trustedscript::{ScriptCompliance, TrustedScript, TrustedScriptOrString};

#[test]
fn lcp_candidate_keeps_what_it_is_given() {
    let candidate = LCPCandidate::new(LCPCandidateID(7), 1200);
    assert_eq!(candidate.id, LCPCandidateID(7));
    assert_eq!(candidate.area, 1200);
    let paint = LargestContentfulPaint::from(candidate, CrossProcessInstant { nanos: 42 });
    assert_eq!(paint.id, LCPCandidateID(7));
    assert_eq!(paint.area, 1200);
    assert_eq!(paint.paint_time, CrossProcessInstant { nanos: 42 });
    assert!(LCPCandidateID(1) < LCPCandidateID(2));
}

#[test]
fn trusted_script_passes_with_its_text() {
    let script = TrustedScript::new(String::from("alert(1)"));
    assert_eq!(script.to_string(), "alert(1)");
    assert_eq!(script.stringifier(), "alert(1)");
    assert_eq!(script.to_json(), "alert(1)");
    match TrustedScript::get_trusted_script_compliant_string(
        TrustedScriptOrString::TrustedScript(script),
        "HTMLScriptElement",
        "text",
    ) {
        ScriptCompliance::Compliant(text) => assert_eq!(text, "alert(1)"),
        ScriptCompliance::NeedsDefaultPolicy { .. } => panic!("trusted script needs no policy"),
    }
}

#[test]
fn a_plain_string_goes_to_the_default_policy() {
    match TrustedScript::get_trusted_script_compliant_string(
        TrustedScriptOrString::String(String::from("1 + 1")),
        "HTMLScriptElement",
        "text",
    ) {
        ScriptCompliance::NeedsDefaultPolicy { value, sink, sink_group } => {
            assert_eq!(value, "1 + 1");
            assert_eq!(sink, "HTMLScriptElement text");
            assert_eq!(sink_group, "'script'");
        },
        ScriptCompliance::Compliant(_) => panic!("a plain string is not trusted"),
    }
    match TrustedScript::get_trusted_script_compliant_string(
        TrustedScriptOrString::String(String::new()),
        "",
        "",
    ) {
        ScriptCompliance::NeedsDefaultPolicy { value, sink, sink_group } => {
            assert_eq!(value, "");
            assert_eq!(sink, " ");
            assert_eq!(sink_group, "'script'");
        },
        ScriptCompliance::Compliant(_) => panic!("a plain string is not trusted"),
    }
}

fn boundary(editable: bool, editing_host: bool) -> Boundary {
    Boundary { editable, editing_host }
}

fn selection(start: Boundary, end: Boundary, collapsed: bool) -> Option<Selection> {
    Some(Selection { active_range: Some(ActiveRange { start, end, collapsed }) })
}

#[test]
fn only_delete_is_supported() {
    assert_eq!(command_if_command_is_supported("delete"), Some(DeleteCommand {}));
    assert_eq!(command_if_command_is_supported("Delete"), None);
    assert_eq!(command_if_command_is_supported("delete "), None);
    assert_eq!(command_if_command_is_supported("bold"), None);
    assert_eq!(command_if_command_is_supported(""), None);
}

#[test]
fn a_command_is_enabled_when_both_ends_allow_editing() {
    let on = boundary(true, false);
    let host = boundary(false, true);
    let off = boundary(false, false);
    assert_eq!(selection_if_command_is_enabled(None), None);
    assert_eq!(selection_if_command_is_enabled(Some(Selection { active_range: None })), None);
    assert_eq!(selection_if_command_is_enabled(selection(on, host, false)), selection(on, host, false));
    assert_eq!(selection_if_command_is_enabled(selection(host, on, true)), selection(host, on, true));
    assert_eq!(selection_if_command_is_enabled(selection(off, on, false)), None);
    assert_eq!(selection_if_command_is_enabled(selection(on, off, false)), None);
    assert_eq!(selection_if_command_is_enabled(selection(off, off, false)), None);
}

#[test]
fn running_a_command() {
    let on = boundary(true, true);
    let off = boundary(false, false);
    assert_eq!(
        check_support_and_enabled("delete", selection(on, on, false)),
        Some((DeleteCommand {}, selection(on, on, false).unwrap()))
    );
    assert_eq!(check_support_and_enabled("cut", selection(on, on, false)), None);
    assert_eq!(check_support_and_enabled("delete", selection(on, off, false)), None);

    assert_eq!(
        exec_command_for_command_id("delete", "", selection(on, on, false)),
        (true, CommandAction::DeleteContents)
    );
    assert_eq!(
        exec_command_for_command_id("delete", "x", selection(on, on, true)),
        (true, CommandAction::Nothing)
    );
    assert_eq!(
        exec_command_for_command_id("delete", "", selection(off, on, false)),
        (false, CommandAction::Nothing)
    );
    assert_eq!(exec_command_for_command_id("delete", "", None), (false, CommandAction::Nothing));
    assert_eq!(
        exec_command_for_command_id("paste", "", selection(on, on, false)),
        (false, CommandAction::Nothing)
    );

    let open = selection(on, on, false).unwrap();
    assert_eq!(DeleteCommand {}.execute(&open), (true, CommandAction::DeleteContents));
    assert_eq!(
        delete_the_selection(&open, &open.active_range.unwrap()),
        CommandAction::DeleteContents
    );
}
