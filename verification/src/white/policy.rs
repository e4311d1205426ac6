//! The policy that a rule file puts in force.

use vstd::prelude::*;

use crate::addr;
use crate::addr::IpAddr;
use crate::white::rules;
use crate::white::rules::{Rule, Rules};
use crate::white::yaml;

verus! {

/// Whether filtering is on, and the rules that then decide.
pub struct Policy {
    pub enabled: bool,
    pub rules: Rules,
}

/// What a policy decides by.
#[verifier::ext_equal]
pub struct PolicyView {
    pub enabled: bool,
    pub rules: Seq<Rule>,
}

impl View for Policy {
    type V = PolicyView;

    open spec fn view(&self) -> PolicyView {
        PolicyView { enabled: self.enabled, rules: self.rules@ }
    }
}

impl PolicyView {
    /// Filtering is off: every source may connect.
    pub open spec fn open_to_all() -> PolicyView {
        PolicyView { enabled: false, rules: Seq::empty() }
    }

    /// Filtering is on and no rule admits anything.
    pub open spec fn closed_to_all() -> PolicyView {
        PolicyView { enabled: true, rules: Seq::empty() }
    }

    /// Whether `source` may connect.
    pub open spec fn permits(self, source: IpAddr) -> bool {
        !self.enabled || rules::admits(self.rules, source)
    }
}

impl Policy {
    /// Filtering off.
    pub fn disabled() -> (r: Policy)
        ensures
            r@ == PolicyView::open_to_all(),
    {
        Policy { enabled: false, rules: Rules::default() }
    }

    /// Filtering on, with no rule.
    pub fn deny_all() -> (r: Policy)
        ensures
            r@ == PolicyView::closed_to_all(),
    {
        Policy { enabled: true, rules: Rules::default() }
    }

    /// Filtering on, by `rules`.
    pub fn enabled(rules: Rules) -> (r: Policy)
        ensures
            r@ == (PolicyView { enabled: true, rules: rules@ }),
    {
        Policy { enabled: true, rules }
    }

    /// Whether `source` may connect.
    pub fn allows(&self, source: IpAddr) -> (r: bool)
        ensures
            r == self@.permits(source),
            !self.enabled ==> r,
            self.enabled ==> (r <==> exists|i: int|
                0 <= i < self.rules@.len() && (#[trigger] self.rules@[i]).covers(
                    source.unmapped(),
                )),
    {
        !self.enabled || self.rules.allows(source)
    }
}

/// The outcome of reading the rule file.
pub enum FileRead {
    /// The file is there and holds this text.
    Content(String),
    /// There is no such file.
    NotFound,
    /// The file is there but cannot be read as text.
    Failed,
}

/// The policy that a document, or the error of reading it, puts in force.
pub open spec fn document_policy(document: Result<yaml::Mapping, Seq<char>>) -> PolicyView {
    match rules::payload_text(document) {
        Err(_) => PolicyView::closed_to_all(),
        Ok(list) => match rules::rules_text(list) {
            Err(_) => PolicyView::closed_to_all(),
            Ok(rules) => PolicyView { enabled: true, rules },
        },
    }
}

/// The policy that the outcome of reading the rule file puts in force: none without a file,
/// and one that denies everything where the file cannot be read or is not valid.
pub open spec fn file_policy(read: FileRead) -> PolicyView {
    match read {
        FileRead::Content(content) => document_policy(yaml::yaml_mapping(content@)),
        FileRead::NotFound => PolicyView::open_to_all(),
        FileRead::Failed => PolicyView::closed_to_all(),
    }
}

/// The policy for rules that were read, or could not be.
pub fn policy_of_rules(rules: Result<Rules, String>) -> (r: Policy)
    ensures
        r@ == match rules {
            Ok(rules) => PolicyView { enabled: true, rules: rules@ },
            Err(_) => PolicyView::closed_to_all(),
        },
{
    match rules {
        Ok(rules) => Policy::enabled(rules),
        Err(_) => Policy::deny_all(),
    }
}

/// The policy that the outcome of reading the rule file puts in force.
pub fn load_policy(read: FileRead) -> (r: Policy)
    ensures
        r@ == file_policy(read),
{
    match read {
        FileRead::Content(content) => policy_of_rules(Rules::parse(content.as_str())),
        FileRead::NotFound => Policy::disabled(),
        FileRead::Failed => Policy::deny_all(),
    }
}

/// What is reported of a policy.
#[derive(Clone, Copy, Debug, PartialEq, Eq, Structural)]
pub enum PolicyReport {
    /// Filtering is on, by this many rules.
    Active { entries: usize },
    /// Filtering is off.
    Disabled,
}

/// What is reported of a policy when it comes into force.
pub fn log_policy(policy: &Policy) -> (r: PolicyReport)
    ensures
        policy@.enabled ==> (r matches PolicyReport::Active { entries } && entries
            == policy@.rules.len()),
        !policy@.enabled ==> r is Disabled,
{
    if policy.enabled {
        PolicyReport::Active { entries: policy.rules.len() }
    } else {
        PolicyReport::Disabled
    }
}

/// The file that holds the rules, where no other is chosen.
pub const FILE_NAME: &'static str = "source-whitelist.yaml";

/// The chosen path, unless none is chosen or the choice is empty.
pub open spec fn chosen_path<P>(chosen: Option<P>, chosen_is_empty: bool, default_path: P) -> P {
    match chosen {
        Some(path) if !chosen_is_empty => path,
        _ => default_path,
    }
}

/// The file that holds the rules: the chosen one, unless none is chosen or the choice is empty.
pub fn resolve_path<P>(chosen: Option<P>, chosen_is_empty: bool, default_path: P) -> (r: P)
    ensures
        r == chosen_path(chosen, chosen_is_empty, default_path),
{
    match chosen {
        Some(path) => if chosen_is_empty {
            default_path
        } else {
            path
        },
        None => default_path,
    }
}

/// A path that does not depend on the current directory: `path` itself where it is absolute,
/// and otherwise `anchored`, which is `path` under the directory that was current.
pub fn absolute_path<P>(path: P, is_absolute: bool, anchored: P) -> (r: P)
    ensures
        r == if is_absolute {
            path
        } else {
            anchored
        },
{
    if is_absolute {
        path
    } else {
        anchored
    }
}

/// Where the rules are read from, for what is an absolute path and what a path is under the
/// current directory.
pub open spec fn rule_file<P>(
    chosen: Option<P>,
    chosen_is_empty: bool,
    default_path: P,
    is_absolute: spec_fn(P) -> bool,
    under_current: spec_fn(P) -> P,
) -> P {
    let path = chosen_path(chosen, chosen_is_empty, default_path);
    if is_absolute(path) {
        path
    } else {
        under_current(path)
    }
}

/// Without a choice, or with an empty one, the rules are read from the default file in the
/// current directory; a relative choice is taken under the current directory too, and an
/// absolute one as it is.
pub proof fn law_the_rule_file_is_found_under_the_current_directory<P>(
    path: P,
    default_path: P,
    is_absolute: spec_fn(P) -> bool,
    under_current: spec_fn(P) -> P,
)
    requires
        !is_absolute(default_path),
    ensures
        rule_file(None, false, default_path, is_absolute, under_current) == under_current(
            default_path,
        ),
        rule_file(Some(path), true, default_path, is_absolute, under_current) == under_current(
            default_path,
        ),
        !is_absolute(path) ==> rule_file(
            Some(path),
            false,
            default_path,
            is_absolute,
            under_current,
        ) == under_current(path),
        is_absolute(path) ==> rule_file(Some(path), false, default_path, is_absolute, under_current)
            == path,
{
}

/// A missing file disables filtering: every source may connect.
pub proof fn law_missing_file_allows_every_source(source: IpAddr)
    ensures
        file_policy(FileRead::NotFound).permits(source),
{
}

/// A file that cannot be read denies every source.
pub proof fn law_unreadable_file_denies_every_source(source: IpAddr)
    ensures
        !file_policy(FileRead::Failed).permits(source),
{
}

/// A document that is not valid, as a whole or in one entry, denies every source.
pub proof fn law_invalid_document_denies_every_source(
    document: Result<yaml::Mapping, Seq<char>>,
    source: IpAddr,
)
    requires
        rules::payload_text(document) matches Ok(list) ==> rules::rules_text(list) is Err,
    ensures
        !document_policy(document).permits(source),
{
}

/// An existing file with an empty payload, whether it lists nothing or has no list, denies
/// every source.
pub proof fn law_empty_payload_denies_every_source(payload: Option<Seq<Seq<char>>>, source: IpAddr)
    requires
        payload matches Some(list) ==> list.len() == 0,
    ensures
        !document_policy(Ok(seq![("payload"@, payload)])).permits(source),
{
    let entries = seq![("payload"@, payload)];
    assert(entries.skip(1).len() == 0);
    reveal_with_fuel(rules::first_unknown, 2);
}

/// A source and its IPv4-mapped form get the same decision.
pub proof fn law_mapped_sources_are_decided_alike(policy: PolicyView, ip: u32)
    ensures
        policy.permits(IpAddr::V6(addr::v4_mapped(ip))) == policy.permits(IpAddr::V4(ip)),
{
    addr::law_unmapping_undoes_mapping(ip);
}

/// With filtering on, a source may connect exactly where some rule covers it; with filtering
/// off, every source may.
pub proof fn law_covered_sources_may_connect(policy: PolicyView, source: IpAddr)
    ensures
        !policy.enabled ==> policy.permits(source),
        policy.enabled ==> (policy.permits(source) <==> exists|i: int|
            0 <= i < policy.rules.len() && (#[trigger] policy.rules[i]).covers(source.unmapped())),
{
}

/// Each rule lets in the sources that it covers, whatever other rules there are.
pub proof fn law_each_rule_lets_its_sources_in(policy: PolicyView, i: int, source: IpAddr)
    requires
        0 <= i < policy.rules.len(),
        policy.rules[i].covers(source.unmapped()),
    ensures
        policy.permits(source),
{
}

/// A document whose entries are all rules lets in exactly the sources that one of its entries
/// covers.
pub proof fn law_listed_sources_may_connect(entries: Seq<Seq<char>>, source: IpAddr)
    requires
        forall|i: int|
            0 <= i < entries.len() ==> rules::payload_rule_text(#[trigger] entries[i]) is Ok,
    ensures
        ({
            let policy = document_policy(Ok(seq![("payload"@, Some(entries))]));
            policy.permits(source) <==> exists|i: int|
                0 <= i < entries.len() && rules::payload_rule_text(
                    #[trigger] entries[i],
                )->Ok_0.covers(source.unmapped())
        }),
{
    let document = seq![("payload"@, Some(entries))];
    rules::law_documents_hold_a_payload(document, Seq::empty());
    if rules::rules_text(entries) is Err {
        rules::law_valid_entries_are_accepted(entries);
    }
    let list = rules::rules_text(entries)->Ok_0;
    let policy = document_policy(Ok(document));
    lemma_as_many_rules(entries);
    assert forall|i: int| 0 <= i < entries.len() implies rules::payload_rule_text(
        #[trigger] entries[i],
    ) == Ok::<Rule, Seq<char>>(list[i]) by {
        rules::law_each_entry_gives_its_rule(entries, i);
    }
    law_covered_sources_may_connect(policy, source);
    let s = source.unmapped();
    if exists|i: int| 0 <= i < list.len() && (#[trigger] list[i]).covers(s) {
        let i = choose|i: int| 0 <= i < list.len() && (#[trigger] list[i]).covers(s);
        assert(rules::payload_rule_text(entries[i])->Ok_0.covers(s));
    }
    if exists|i: int|
        0 <= i < entries.len() && rules::payload_rule_text(#[trigger] entries[i])->Ok_0.covers(s) {
        let i = choose|i: int|
            0 <= i < entries.len() && rules::payload_rule_text(#[trigger] entries[i])->Ok_0.covers(s);
        assert(list[i].covers(s));
    }
}

proof fn lemma_as_many_rules(entries: Seq<Seq<char>>)
    requires
        rules::rules_text(entries) is Ok,
    ensures
        rules::rules_text(entries)->Ok_0.len() == entries.len(),
{
    if entries.len() > 0 {
        rules::law_each_entry_gives_its_rule(entries, 0);
    }
}

/// A file that can be read is taken as the document that it holds.
pub proof fn law_a_readable_file_is_its_document(content: String, source: IpAddr)
    ensures
        file_policy(FileRead::Content(content)).permits(source) <==> document_policy(
            yaml::yaml_mapping(content@),
        ).permits(source),
{
}

/// Without filtering every source may connect; with filtering and no rule none may.
pub proof fn law_open_and_closed(source: IpAddr)
    ensures
        PolicyView::open_to_all().permits(source),
        !PolicyView::open_to_all().enabled,
        !PolicyView::closed_to_all().permits(source),
        PolicyView::closed_to_all().enabled,
{
}

/// A document is in force with all its rules, or it denies every source: with one entry that is
/// no rule, without the one name that it must hold, or where it cannot be read.
pub proof fn law_documents_turn_filtering_on(
    document: Result<yaml::Mapping, Seq<char>>,
    source: IpAddr,
)
    ensures
        document_policy(document).enabled,
        document is Err ==> !document_policy(document).permits(source),
        document matches Ok(entries) ==> (entries.len() != 1 || entries[0].0 != "payload"@
            ==> !document_policy(document).permits(source)),
        document matches Ok(entries) ==> (entries.len() == 1 && entries[0].0 == "payload"@ ==> (
        entries[0].1 matches Some(list) ==> ((exists|i: int|
            0 <= i < list.len() && rules::payload_rule_text(#[trigger] list[i]) is Err)
            ==> !document_policy(document).permits(source)))),
{
    match document {
        Err(message) => {
            rules::law_documents_hold_a_payload(Seq::empty(), message);
        },
        Ok(entries) => {
            rules::law_documents_hold_a_payload(entries, Seq::empty());
            if entries.len() == 1 && entries[0].0 == "payload"@ {
                match entries[0].1 {
                    Some(list) => {
                        if exists|i: int|
                            0 <= i < list.len() && rules::payload_rule_text(
                                #[trigger] list[i],
                            ) is Err {
                            let i = choose|i: int|
                                0 <= i < list.len() && rules::payload_rule_text(
                                    #[trigger] list[i],
                                ) is Err;
                            rules::law_one_invalid_entry_rejects_all(list, i);
                        }
                    },
                    None => {},
                }
            }
        },
    }
}

/// The chosen path is taken where there is one that is not empty.
pub proof fn law_a_chosen_path_is_taken<P>(path: P, default_path: P, is_empty: bool)
    ensures
        chosen_path(Some(path), false, default_path) == path,
        chosen_path(Some(path), true, default_path) == default_path,
        chosen_path(None, is_empty, default_path) == default_path,
{
}

/// A policy decides by whether it is on and by its rules. The rules stand in a file of this name
/// unless another is chosen.
pub proof fn law_policies_are_known_by_their_rules(policy: Policy)
    ensures
        policy@.enabled == policy.enabled,
        policy@.rules == policy.rules@,
        FILE_NAME@ == "source-whitelist.yaml"@,
{
}

} // verus!
