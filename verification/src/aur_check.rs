use vstd::prelude::*;
use crate::command::{new_command, new_option, option_is, CommandSpec, OptionKind};
use crate::text::{lines, split_lines, str_eq, to_lowercase, trim, trimmed, unicode_lowercase};

verus! {

/// Packages published to npm by the campaign.
pub open spec fn npm_malware() -> Seq<Seq<char>> {
    seq!["atomic-lockfile"@, "js-digest"@, "lockfile-js"@, "nextfile-js"@]
}

/// AUR packages that carry a remote-access trojan.
pub open spec fn rat_packages() -> Seq<Seq<char>> {
    seq![
        "librewolf-fix-bin"@,
        "firefox-patch-bin"@,
        "zen-browser-patched-bin"@,
        "vesktop-bin-patched"@,
        "minecraft-cracked"@,
        "ttf-ms-fonts-all"@,
        "ttf-all-ms-fonts"@,
    ]
}

/// Names of the Russian spam packages, one per line. The campaign's package names are not part
/// of this crate's data, so the list is empty and no package gets the spam verdict.
pub const SPAM_LIST: &'static str = "";

/// Where the list of infected AUR packages is published.
pub const AUR_MALWARE_URL: &'static str =
    "https://raw.githubusercontent.com/lenucksi/aur-malware-check/refs/heads/master/data/campaigns/aur-infected/packages.txt";

/// `pkg` is one of the trimmed lines of `list`.
pub open spec fn listed_in(list: Seq<char>, pkg: Seq<char>) -> bool {
    exists|k: int| 0 <= k < lines(list).len() && trimmed(#[trigger] lines(list)[k]) == pkg
}

/// The kind that the local lists give `pkg`, checking the npm list, then the trojans, then the
/// spam list `spam`.
pub open spec fn static_kind(pkg: Seq<char>, spam: Seq<char>) -> Option<Seq<char>> {
    if npm_malware().contains(pkg) {
        Some("NPM Package"@)
    } else if rat_packages().contains(pkg) {
        Some("Rat Package"@)
    } else if listed_in(spam, pkg) {
        Some("Russian Spam Package"@)
    } else {
        None
    }
}

fn in_list(pkg: &str, list: &Vec<&str>) -> (r: bool)
    ensures
        r == list@.map_values(|s: &str| s@).contains(pkg@),
{
    let ghost views = list@.map_values(|s: &str| s@);
    let mut i: usize = 0;
    while i < list.len()
        invariant
            i <= list@.len(),
            views == list@.map_values(|s: &str| s@),
            forall|k: int| 0 <= k < i ==> views[k] != pkg@,
        decreases list@.len() - i,
    {
        if str_eq(list[i], pkg) {
            assert(views[i as int] == pkg@);
            return true;
        }
        i += 1;
    }
    false
}

/// Whether one of the lines of `list`, trimmed, is `pkg`.
pub fn in_spam_list(list: &str, pkg: &str) -> (r: bool)
    ensures
        r == listed_in(list@, pkg@),
{
    let ls = split_lines(list);
    let mut i: usize = 0;
    while i < ls.len()
        invariant
            i <= ls@.len() == lines(list@).len(),
            forall|k: int| 0 <= k < ls@.len() ==> #[trigger] ls@[k]@ == lines(list@)[k],
            forall|k: int| 0 <= k < i ==> trimmed(#[trigger] lines(list@)[k]) != pkg@,
        decreases ls@.len() - i,
    {
        let t = trim(ls[i].as_str());
        if str_eq(t.as_str(), pkg) {
            assert(ls@[i as int]@ == lines(list@)[i as int]);
            return true;
        }
        assert(ls@[i as int]@ == lines(list@)[i as int]);
        i += 1;
    }
    false
}

/// The local verdict on `pkg`: the kind of malware that a built-in list names it as.
pub fn is_known_static(pkg: &str) -> (r: Option<&'static str>)
    ensures
        match r {
            Some(kind) => static_kind(pkg@, SPAM_LIST@) == Some(kind@),
            None => static_kind(pkg@, SPAM_LIST@) is None,
        },
{
    let npm: Vec<&str> = vec!["atomic-lockfile", "js-digest", "lockfile-js", "nextfile-js"];
    assert(npm@.map_values(|s: &str| s@) =~= npm_malware());
    if in_list(pkg, &npm) {
        return Some("NPM Package");
    }
    let rat: Vec<&str> = vec![
        "librewolf-fix-bin",
        "firefox-patch-bin",
        "zen-browser-patched-bin",
        "vesktop-bin-patched",
        "minecraft-cracked",
        "ttf-ms-fonts-all",
        "ttf-all-ms-fonts",
    ];
    assert(rat@.map_values(|s: &str| s@) =~= rat_packages());
    if in_list(pkg, &rat) {
        return Some("Rat Package");
    }
    if in_spam_list(SPAM_LIST, pkg) {
        return Some("Russian Spam Package");
    }
    None
}

/// The `/aur-check` command: one required string option, the package name.
pub fn register() -> (c: CommandSpec)
    ensures
        c.name@ == "aur-check"@,
        c.description@ == "Check a package name against known malware/spam lists"@,
        c.options@.len() == 1,
        option_is(c.options@[0], OptionKind::String, "package"@, "Package name"@, true),
{
    let mut c = new_command("aur-check", "Check a package name against known malware/spam lists");
    c.options.push(new_option(OptionKind::String, "package", "Package name", true));
    c
}

/// The entries of the remote list whose lines are `ls`: each line trimmed and lower-cased, the
/// empty ones left out, in order.
pub open spec fn remote_entries(ls: Seq<Seq<char>>) -> Seq<Seq<char>>
    decreases ls.len(),
{
    if ls.len() == 0 {
        Seq::empty()
    } else {
        let rest = remote_entries(ls.drop_last());
        let entry = unicode_lowercase(trimmed(ls.last()));
        if entry.len() > 0 {
            rest.push(entry)
        } else {
            rest
        }
    }
}

/// The package names in the body of the remote malware list.
pub fn parse_remote_list(body: &str) -> (out: Vec<String>)
    ensures
        out@.map_values(|e: String| e@) == remote_entries(lines(body@)),
{
    let ls = split_lines(body);
    let ghost all = lines(body@);
    let mut out: Vec<String> = Vec::new();
    let mut i: usize = 0;
    while i < ls.len()
        invariant
            i <= ls@.len() == all.len(),
            all == lines(body@),
            forall|k: int| 0 <= k < ls@.len() ==> #[trigger] ls@[k]@ == all[k],
            out@.map_values(|e: String| e@) == remote_entries(all.take(i as int)),
        decreases ls@.len() - i,
    {
        let t = trim(ls[i].as_str());
        let entry = to_lowercase(t.as_str());
        let ghost before = out@.map_values(|e: String| e@);
        assert(all.take(i + 1).drop_last() =~= all.take(i as int));
        assert(all.take(i + 1).last() == ls@[i as int]@);
        if !entry.as_str().is_empty() {
            out.push(entry);
            assert(out@.map_values(|e: String| e@) =~= before.push(entry@));
        }
        i += 1;
    }
    assert(all.take(ls@.len() as int) =~= all);
    out
}

/// No entry of the remote list is empty.
pub proof fn law_remote_entries_are_not_empty(ls: Seq<Seq<char>>)
    ensures
        forall|k: int| 0 <= k < remote_entries(ls).len() ==> #[trigger] remote_entries(ls)[k].len() > 0,
    decreases ls.len(),
{
    if ls.len() > 0 {
        law_remote_entries_are_not_empty(ls.drop_last());
        let rest = remote_entries(ls.drop_last());
        assert forall|k: int| 0 <= k < remote_entries(ls).len() implies #[trigger] remote_entries(ls)[k].len() > 0 by {
            if k < rest.len() {
                assert(remote_entries(ls)[k] == rest[k]);
            }
        }
    }
}

/// What `check` decides next.
pub enum CheckStep {
    /// The answer: the kind of malware that names the package, if any, or the error met while
    /// fetching the remote list.
    Done(Result<Option<&'static str>, String>),
    /// No local list names the package: the remote list is needed.
    FetchRemote,
}

/// The verdict on `pkg` given the local lists and, once fetched, the remote list: `None` while
/// the remote list is needed and not given.
pub open spec fn check_outcome(
    pkg: Seq<char>,
    spam: Seq<char>,
    remote: Option<Result<Seq<Seq<char>>, Seq<char>>>,
) -> Option<Result<Option<Seq<char>>, Seq<char>>> {
    match static_kind(pkg, spam) {
        Some(kind) => Some(Ok(Some(kind))),
        None => match remote {
            None => None,
            Some(Err(e)) => Some(Err(e)),
            Some(Ok(list)) => Some(
                Ok(
                    if list.contains(pkg) {
                        Some("AUR Malware"@)
                    } else {
                        None
                    },
                ),
            ),
        },
    }
}

/// `step` is what `check_outcome` decides.
pub open spec fn step_is(step: CheckStep, outcome: Option<Result<Option<Seq<char>>, Seq<char>>>) -> bool {
    match step {
        CheckStep::FetchRemote => outcome is None,
        CheckStep::Done(Ok(Some(kind))) => outcome == Some(Ok::<Option<Seq<char>>, Seq<char>>(Some(kind@))),
        CheckStep::Done(Ok(None)) => outcome == Some(Ok::<Option<Seq<char>>, Seq<char>>(None)),
        CheckStep::Done(Err(e)) => outcome == Some(Err::<Option<Seq<char>>, Seq<char>>(e@)),
    }
}

/// The remote list as plain values.
pub open spec fn remote_view(remote: Option<&Result<Vec<String>, String>>) -> Option<
    Result<Seq<Seq<char>>, Seq<char>>,
> {
    match remote {
        None => None,
        Some(Ok(list)) => Some(Ok(list@.map_values(|e: String| e@))),
        Some(Err(e)) => Some(Err(e@)),
    }
}

/// Checks `pkg` against the local lists and, when none names it, against the remote list (the
/// result of fetching it, `None` until it has been fetched).
pub fn check(pkg: &str, remote: Option<&Result<Vec<String>, String>>) -> (step: CheckStep)
    ensures
        step_is(step, check_outcome(pkg@, SPAM_LIST@, remote_view(remote))),
{
    if let Some(kind) = is_known_static(pkg) {
        return CheckStep::Done(Ok(Some(kind)));
    }
    match remote {
        None => CheckStep::FetchRemote,
        Some(Err(e)) => CheckStep::Done(Err(e.clone())),
        Some(Ok(list)) => {
            let ghost views = list@.map_values(|e: String| e@);
            let mut i: usize = 0;
            while i < list.len()
                invariant
                    i <= list@.len(),
                    views == list@.map_values(|e: String| e@),
                    static_kind(pkg@, SPAM_LIST@) is None,
                    remote_view(remote) == Some(Ok::<Seq<Seq<char>>, Seq<char>>(views)),
                    forall|k: int| 0 <= k < i ==> views[k] != pkg@,
                decreases list@.len() - i,
            {
                if str_eq(list[i].as_str(), pkg) {
                    assert(views[i as int] == pkg@);
                    return CheckStep::Done(Ok(Some("AUR Malware")));
                }
                i += 1;
            }
            CheckStep::Done(Ok(None))
        },
    }
}

/// The package name that the command's option holds: trimmed and lower-cased, empty when the
/// option is missing or not a string.
pub fn package_name(option: Option<&str>) -> (name: String)
    ensures
        name@ == unicode_lowercase(
            trimmed(
                match option {
                    Some(s) => s@,
                    None => Seq::empty(),
                },
            ),
        ),
{
    let raw: &str = match option {
        Some(s) => s,
        None => "",
    };
    proof {
        reveal_strlit("");
        assert(""@ =~= Seq::<char>::empty());
    }
    let t = trim(raw);
    to_lowercase(t.as_str())
}

/// The reply to `/aur-check` for `pkg` with the verdict `verdict`.
pub open spec fn reply_text(pkg: Seq<char>, verdict: Result<Option<Seq<char>>, Seq<char>>) -> Seq<
    char,
> {
    match verdict {
        Ok(Some(kind)) => "`"@ + pkg + "` is malicious. Type: "@ + kind
            + "\nIf you have this package installed on your system, please refer to [this](https://discord.com/channels/868690424506773604/868692029616582666/1517282537527971860) immediately"@,
        Ok(None) => "`"@ + pkg + "` is not in any known malware list."@,
        Err(e) => "Could not reach the remote malware list, only checked local lists, error: "@ + e,
    }
}

/// The verdict as plain values.
pub open spec fn verdict_view(verdict: &Result<Option<&'static str>, String>) -> Result<
    Option<Seq<char>>,
    Seq<char>,
> {
    match verdict {
        Ok(Some(kind)) => Ok(Some(kind@)),
        Ok(None) => Ok(None),
        Err(e) => Err(e@),
    }
}

/// The reply that the bot sends for `pkg` and its verdict.
pub fn reply(pkg: &str, verdict: &Result<Option<&'static str>, String>) -> (text: String)
    ensures
        text@ == reply_text(pkg@, verdict_view(verdict)),
{
    match verdict {
        Ok(Some(kind)) => {
            let mut s = String::from_str("`");
            s.append(pkg);
            s.append("` is malicious. Type: ");
            s.append(kind);
            s.append(
                "\nIf you have this package installed on your system, please refer to [this](https://discord.com/channels/868690424506773604/868692029616582666/1517282537527971860) immediately",
            );
            s
        },
        Ok(None) => {
            let mut s = String::from_str("`");
            s.append(pkg);
            s.append("` is not in any known malware list.");
            s
        },
        Err(e) => {
            let mut s = String::from_str(
                "Could not reach the remote malware list, only checked local lists, error: ",
            );
            s.append(e.as_str());
            s
        },
    }
}

/// A package that a local list names is judged without the remote list, whatever that list
/// holds or whether it could be fetched.
pub proof fn law_local_lists_need_no_fetch(
    pkg: Seq<char>,
    spam: Seq<char>,
    remote: Option<Result<Seq<Seq<char>>, Seq<char>>>,
)
    requires
        static_kind(pkg, spam) is Some,
    ensures
        check_outcome(pkg, spam, remote) == Some(
            Ok::<Option<Seq<char>>, Seq<char>>(static_kind(pkg, spam)),
        ),
{
}

/// For a package that no local list names, the remote list decides: the answer is "AUR Malware"
/// exactly when some entry equals the package name (an entry that merely contains it does not
/// count), and a clean answer otherwise.
pub proof fn law_remote_verdict_is_exact_match(pkg: Seq<char>, spam: Seq<char>, list: Seq<Seq<char>>)
    requires
        static_kind(pkg, spam) is None,
    ensures
        (exists|k: int| 0 <= k < list.len() && list[k] == pkg) ==> check_outcome(
            pkg,
            spam,
            Some(Ok(list)),
        ) == Some(Ok::<Option<Seq<char>>, Seq<char>>(Some("AUR Malware"@))),
        (forall|k: int| 0 <= k < list.len() ==> list[k] != pkg) ==> check_outcome(
            pkg,
            spam,
            Some(Ok(list)),
        ) == Some(Ok::<Option<Seq<char>>, Seq<char>>(None)),
{
    if exists|k: int| 0 <= k < list.len() && list[k] == pkg {
        let k = choose|k: int| 0 <= k < list.len() && list[k] == pkg;
        assert(list.contains(pkg));
    }
}

/// For a package that no local list names, the remote list is asked for until it is given, and
/// a failure to fetch it is passed on unchanged.
pub proof fn law_remote_list_is_needed(pkg: Seq<char>, spam: Seq<char>, error: Seq<char>)
    requires
        static_kind(pkg, spam) is None,
    ensures
        check_outcome(pkg, spam, None) is None,
        check_outcome(pkg, spam, Some(Err(error))) == Some(Err::<Option<Seq<char>>, Seq<char>>(error)),
{
}

} // verus!
