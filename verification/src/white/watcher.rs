//! When a change on disk calls for reading the rule file again.

use vstd::prelude::*;
use vstd::utf8;

use crate::addr::IpAddr;
use crate::buffer::same_bytes;
use crate::white::policy;
use crate::white::yaml;

verus! {

/// The kinds of file system events.
#[derive(Clone, Copy, Debug, PartialEq, Eq, Structural)]
pub enum EventKind {
    Any,
    Access,
    Create,
    Modify,
    Remove,
    Other,
}

/// A file system event: its kind and, of each path it concerns, the final component, where
/// the path has one.
pub struct FileEvent {
    pub kind: EventKind,
    pub file_names: Vec<Option<Vec<u8>>>,
}

/// Whether two final path components are both absent or are the same bytes.
pub open spec fn same_name(a: Option<Vec<u8>>, b: Option<Vec<u8>>) -> bool {
    match (a, b) {
        (Some(a), Some(b)) => a@ == b@,
        (None, None) => true,
        _ => false,
    }
}

impl FileEvent {
    /// The event is no mere access, and it concerns no path in particular or one with the
    /// name `target`.
    pub open spec fn concerns(self, target: Option<Vec<u8>>) -> bool {
        &&& self.kind != EventKind::Access
        &&& self.file_names@.len() == 0 || exists|i: int|
            0 <= i < self.file_names@.len() && same_name(#[trigger] self.file_names@[i], target)
    }
}

fn names_agree(a: &Option<Vec<u8>>, b: &Option<Vec<u8>>) -> (r: bool)
    ensures
        r == same_name(*a, *b),
{
    match (a, b) {
        (Some(a), Some(b)) => same_bytes(a, b),
        (None, None) => true,
        _ => false,
    }
}

/// Whether `event` may have changed the file with the name `target`.
pub fn affects_file(event: &FileEvent, target: &Option<Vec<u8>>) -> (r: bool)
    ensures
        r == event.concerns(*target),
{
    let relevant = match event.kind {
        EventKind::Any => true,
        EventKind::Create => true,
        EventKind::Modify => true,
        EventKind::Remove => true,
        EventKind::Other => true,
        EventKind::Access => false,
    };
    if !relevant {
        return false;
    }
    if event.file_names.len() == 0 {
        return true;
    }
    let mut i: usize = 0;
    while i < event.file_names.len()
        invariant
            i <= event.file_names.len(),
            event.kind != EventKind::Access,
            forall|j: int| 0 <= j < i ==> !same_name(#[trigger] event.file_names@[j], *target),
        decreases event.file_names.len() - i,
    {
        if names_agree(&event.file_names[i], target) {
            return true;
        }
        i = i + 1;
    }
    false
}

/// What polling a file found.
pub enum PolledFile {
    /// The file is there and holds these bytes.
    Contents(Vec<u8>),
    /// There is no such file.
    Missing,
    /// The file is there but cannot be read.
    Unreadable,
}

/// Whether two polls found the same.
pub open spec fn same_outcome(a: PolledFile, b: PolledFile) -> bool {
    match (a, b) {
        (PolledFile::Contents(a), PolledFile::Contents(b)) => a@ == b@,
        (PolledFile::Missing, PolledFile::Missing) => true,
        (PolledFile::Unreadable, PolledFile::Unreadable) => true,
        _ => false,
    }
}

fn outcomes_agree(a: &PolledFile, b: &PolledFile) -> (r: bool)
    ensures
        r == same_outcome(*a, *b),
{
    match (a, b) {
        (PolledFile::Contents(a), PolledFile::Contents(b)) => same_bytes(a, b),
        (PolledFile::Missing, PolledFile::Missing) => true,
        (PolledFile::Unreadable, PolledFile::Unreadable) => true,
        _ => false,
    }
}

/// What was last found of a file that is polled.
pub struct PollState {
    pub previous: PolledFile,
}

impl PollState {
    pub fn new(first: PolledFile) -> (r: PollState)
        ensures
            r.previous == first,
    {
        PollState { previous: first }
    }

    /// Takes what was found now; tells whether it differs from what was found before.
    pub fn observe(&mut self, current: PolledFile) -> (changed: bool)
        ensures
            changed == !same_outcome(current, old(self).previous),
            same_outcome(final(self).previous, current),
    {
        if outcomes_agree(&current, &self.previous) {
            false
        } else {
            self.previous = current;
            true
        }
    }
}

/// The policy that a rule file puts in force as it was found.
pub open spec fn polled_policy(found: PolledFile) -> policy::PolicyView {
    match found {
        PolledFile::Contents(bytes) => if utf8::valid_utf8(bytes@) {
            policy::document_policy(yaml::yaml_mapping(utf8::decode_utf8(bytes@)))
        } else {
            policy::PolicyView::closed_to_all()
        },
        PolledFile::Missing => policy::PolicyView::open_to_all(),
        PolledFile::Unreadable => policy::PolicyView::closed_to_all(),
    }
}

/// Polling misses no change of policy: where the file as it is now would put another policy in
/// force than before, the poll tells of a change.
pub proof fn law_polling_notices_every_change_of_policy(before: PolledFile, now: PolledFile)
    requires
        polled_policy(before) != polled_policy(now),
    ensures
        !same_outcome(now, before),
{
}

/// A missing file that is then there but cannot be read is a change, after which every source
/// is denied.
pub proof fn law_a_file_that_becomes_unreadable_closes_the_proxy(source: IpAddr)
    ensures
        !same_outcome(PolledFile::Unreadable, PolledFile::Missing),
        polled_policy(PolledFile::Missing).permits(source),
        !polled_policy(PolledFile::Unreadable).permits(source),
{
}

/// File accesses never trigger a reload, whatever file they concern.
pub proof fn law_access_never_triggers_a_reload(event: FileEvent, target: Option<Vec<u8>>)
    requires
        event.kind == EventKind::Access,
    ensures
        !event.concerns(target),
{
}

/// An event that concerns paths, none of which has the watched name, does not trigger a
/// reload.
pub proof fn law_other_files_never_trigger_a_reload(event: FileEvent, target: Option<Vec<u8>>)
    requires
        event.file_names@.len() > 0,
        forall|i: int|
            0 <= i < event.file_names@.len() ==> !same_name(#[trigger] event.file_names@[i], target),
    ensures
        !event.concerns(target),
{
}

/// An event that is no mere access triggers a reload where it concerns no path in particular,
/// or any path with the watched name, whatever the others are.
pub proof fn law_changes_trigger_a_reload(event: FileEvent, target: Option<Vec<u8>>, i: int)
    requires
        event.kind != EventKind::Access,
    ensures
        event.file_names@.len() == 0 ==> event.concerns(target),
        0 <= i < event.file_names@.len() ==> match (event.file_names@[i], target) {
            (Some(name), Some(watched)) => name@ == watched@ ==> event.concerns(target),
            (None, None) => event.concerns(target),
            _ => true,
        },
{
    if 0 <= i < event.file_names@.len() {
        assert(same_name(event.file_names@[i], target) ==> event.concerns(target));
    }
}

/// Two names are the same where both are there and have the same bytes, or neither is there.
pub proof fn law_names_are_compared_by_their_bytes(a: Vec<u8>, b: Vec<u8>)
    ensures
        same_name(Some(a), Some(b)) <==> a@ == b@,
        same_name(None, None),
        !same_name(Some(a), None),
        !same_name(None, Some(b)),
{
}

/// Two polls found the same where both found the same bytes, or no file, or a file that cannot
/// be read.
pub proof fn law_polls_are_compared_by_what_they_found(a: Vec<u8>, b: Vec<u8>, other: PolledFile)
    ensures
        same_outcome(PolledFile::Contents(a), PolledFile::Contents(b)) <==> a@ == b@,
        same_outcome(PolledFile::Contents(a), other) ==> other is Contents,
        same_outcome(PolledFile::Missing, other) <==> other is Missing,
        same_outcome(PolledFile::Unreadable, other) <==> other is Unreadable,
        same_outcome(other, PolledFile::Contents(a)) ==> other is Contents,
{
}

/// A file that is polled puts the policy of its text in force. Bytes that are no text deny every
/// source.
pub proof fn law_polled_files_put_their_policy_in_force(bytes: Vec<u8>, text: String, source: IpAddr)
    ensures
        utf8::valid_utf8(bytes@) && utf8::decode_utf8(bytes@) == text@ ==> polled_policy(
            PolledFile::Contents(bytes),
        ) == policy::file_policy(policy::FileRead::Content(text)),
        !utf8::valid_utf8(bytes@) ==> !polled_policy(PolledFile::Contents(bytes)).permits(source),
        polled_policy(PolledFile::Missing) == policy::file_policy(policy::FileRead::NotFound),
        polled_policy(PolledFile::Unreadable) == policy::file_policy(policy::FileRead::Failed),
{
}

} // verus!
