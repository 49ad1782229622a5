use uess::aur_check::{
    check, in_spam_list, is_known_static, package_name, parse_remote_list, register, reply,
    CheckStep, SPAM_LIST,
};
use uess::command::OptionKind;

#[test]
fn static_lists_name_their_packages() {
    assert_eq!(is_known_static("js-digest"), Some("NPM Package"));
    assert_eq!(is_known_static("atomic-lockfile"), Some("NPM Package"));
    assert_eq!(is_known_static("minecraft-cracked"), Some("Rat Package"));
    assert_eq!(is_known_static("ttf-all-ms-fonts"), Some("Rat Package"));
    assert_eq!(is_known_static("firefox"), None);
    assert_eq!(is_known_static("JS-DIGEST"), None);
    assert_eq!(is_known_static(""), None);
    assert_eq!(SPAM_LIST, "");
}

#[test]
fn spam_list_matches_trimmed_lines() {
    let list = "  spam-one \r\nspam-two\n\nlast";
    assert!(in_spam_list(list, "spam-one"));
    assert!(in_spam_list(list, "spam-two"));
    assert!(in_spam_list(list, "last"));
    assert!(in_spam_list(list, ""));
    assert!(!in_spam_list(list, "spam"));
    assert!(!in_spam_list("a\n", ""));
    assert!(!in_spam_list("", ""));
}

#[test]
fn remote_list_is_normalised() {
    let body = "  Evil-Pkg \n\n\tOTHER\r\n   \nlast";
    assert_eq!(
        parse_remote_list(body),
        vec!["evil-pkg".to_string(), "other".to_string(), "last".to_string()]
    );
    assert!(parse_remote_list("").is_empty());
    assert!(parse_remote_list(" \n\t\r\n a \n\u{a0}").iter().all(|e| !e.is_empty()));
}

#[test]
fn check_prefers_local_lists() {
    let failed: Result<Vec<String>, String> = Err("timeout".to_string());
    match check("js-digest", None) {
        CheckStep::Done(Ok(Some(kind))) => assert_eq!(kind, "NPM Package"),
        _ => panic!("expected a local verdict"),
    }
    match check("js-digest", Some(&failed)) {
        CheckStep::Done(Ok(Some(kind))) => assert_eq!(kind, "NPM Package"),
        _ => panic!("expected a local verdict"),
    }
}

#[test]
fn check_asks_for_the_remote_list() {
    assert!(matches!(check("some-pkg", None), CheckStep::FetchRemote));
    let remote: Result<Vec<String>, String> = Ok(vec!["some-pkg".to_string()]);
    match check("some-pkg", Some(&remote)) {
        CheckStep::Done(Ok(Some(kind))) => assert_eq!(kind, "AUR Malware"),
        _ => panic!("expected the AUR verdict"),
    }
    match check("clean-pkg", Some(&remote)) {
        CheckStep::Done(Ok(None)) => {}
        _ => panic!("expected a clean verdict"),
    }
    let failed: Result<Vec<String>, String> = Err("timeout".to_string());
    match check("clean-pkg", Some(&failed)) {
        CheckStep::Done(Err(e)) => assert_eq!(e, "timeout"),
        _ => panic!("expected the error"),
    }
}

#[test]
fn package_names_are_normalised() {
    assert_eq!(package_name(Some("  Firefox-PATCH-bin ")), "firefox-patch-bin");
    assert_eq!(package_name(None), "");
    assert_eq!(package_name(Some("ÄBC")), "äbc");
}

#[test]
fn replies_describe_the_verdict() {
    assert_eq!(
        reply("js-digest", &Ok(Some("NPM Package"))),
        "`js-digest` is malicious. Type: NPM Package\nIf you have this package installed on your system, please refer to [this](https://discord.com/channels/868690424506773604/868692029616582666/1517282537527971860) immediately"
    );
    assert_eq!(reply("vim", &Ok(None)), "`vim` is not in any known malware list.");
    assert_eq!(
        reply("vim", &Err("dns error".to_string())),
        "Could not reach the remote malware list, only checked local lists, error: dns error"
    );
}

#[test]
fn aur_check_command_takes_a_package() {
    let c = register();
    assert_eq!(c.name, "aur-check");
    assert_eq!(c.description, "Check a package name against known malware/spam lists");
    assert_eq!(c.options.len(), 1);
    assert_eq!(c.options[0].kind, OptionKind::String);
    assert_eq!(c.options[0].name, "package");
    assert_eq!(c.options[0].description, "Package name");
    assert!(c.options[0].required);
}
