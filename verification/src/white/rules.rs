//! Whitelist rules: the payload entries of a rule file and the addresses they admit.

use vstd::arithmetic::power2::*;
use vstd::prelude::*;

use crate::addr;
use crate::addr::{normalize_ip, to_mapped_v4, IpAddr};
use crate::text;
use crate::text::{join, parse_u8, same_ignoring_case, split_str, to_chars, trim};
use crate::white::mask;
use crate::white::mask::{v4_mask, v6_mask};
use crate::white::yaml;
use crate::white::yaml::read_mapping;

verus! {

/// A network: its base address and the number of leading bits that count.
#[allow(inconsistent_fields)]
#[derive(Clone, Copy, Debug, PartialEq, Eq, Structural)]
pub enum Rule {
    V4 { network: u32, prefix: u8 },
    V6 { network: u128, prefix: u8 },
}

impl Rule {
    /// The prefix fits the address family and the base has no bits beyond it.
    pub open spec fn wf(self) -> bool {
        match self {
            Rule::V4 { network, prefix } => prefix <= 32 && network as nat % pow2(
                (32 - prefix) as nat,
            ) == 0,
            Rule::V6 { network, prefix } => prefix <= 128 && network as nat % pow2(
                (128 - prefix) as nat,
            ) == 0,
        }
    }

    /// Whether `source` is of the rule's family and shares its prefix.
    pub open spec fn covers(self, source: IpAddr) -> bool {
        match (self, source) {
            (Rule::V4 { network, prefix }, IpAddr::V4(ip)) => mask::same_prefix(
                ip as nat,
                network as nat,
                32,
                prefix as nat,
            ),
            (Rule::V6 { network, prefix }, IpAddr::V6(ip)) => mask::same_prefix(
                ip as nat,
                network as nat,
                128,
                prefix as nat,
            ),
            _ => false,
        }
    }

    /// Whether the rule covers `source`.
    pub fn allows(&self, source: IpAddr) -> (r: bool)
        requires
            self.wf(),
        ensures
            r == self.covers(source),
    {
        match (*self, source) {
            (Rule::V4 { network, prefix }, IpAddr::V4(ip)) => {
                proof {
                    mask::lemma_base_decides_prefix(ip as nat, network as nat, 32, prefix as nat);
                }
                ip & v4_mask(prefix) == network
            },
            (Rule::V6 { network, prefix }, IpAddr::V6(ip)) => {
                proof {
                    mask::lemma_base_decides_prefix(ip as nat, network as nat, 128, prefix as nat);
                }
                ip & v6_mask(prefix) == network
            },
            _ => false,
        }
    }
}

/// The network of the `prefix` first bits of `ip`. An IPv4-mapped network of at least
/// ninety-six bits is an IPv4 network.
pub open spec fn network_of(ip: IpAddr, prefix: u8) -> Rule {
    match ip {
        IpAddr::V4(ip) => Rule::V4 {
            network: mask::network_base(ip as nat, 32, prefix as nat) as u32,
            prefix,
        },
        IpAddr::V6(ip) => match addr::mapped_v4(ip) {
            Some(v4) if prefix >= 96 => Rule::V4 {
                network: mask::network_base(v4 as nat, 32, (prefix - 96) as nat) as u32,
                prefix: (prefix - 96) as u8,
            },
            _ => Rule::V6 {
                network: mask::network_base(ip as nat, 128, prefix as nat) as u128,
                prefix,
            },
        },
    }
}

/// The rule that `entry` spells, an address with an optional prefix length, or why it spells
/// none.
pub open spec fn rule_text(entry: Seq<char>) -> Result<Rule, Seq<char>> {
    let e = text::trimmed(entry);
    let parts = text::split(e, '/');
    if e.len() == 0 {
        Err("source whitelist contains an empty entry"@)
    } else if parts.len() > 2 {
        Err("invalid source whitelist entry: "@ + e)
    } else if parts.len() == 2 && text::u8_text(parts[1]) is None {
        Err("invalid CIDR prefix in source whitelist entry: "@ + e)
    } else {
        match addr::ip_text(parts[0]) {
            None => Err("invalid IP address in source whitelist entry: "@ + e),
            Some(IpAddr::V4(ip)) => {
                let prefix = if parts.len() == 2 {
                    text::u8_text(parts[1])->0
                } else {
                    32
                };
                if prefix > 32 {
                    Err("IPv4 prefix must be between 0 and 32: "@ + e)
                } else {
                    Ok(network_of(IpAddr::V4(ip), prefix))
                }
            },
            Some(IpAddr::V6(ip)) => {
                let prefix = if parts.len() == 2 {
                    text::u8_text(parts[1])->0
                } else {
                    128
                };
                if prefix > 128 {
                    Err("IPv6 prefix must be between 0 and 128: "@ + e)
                } else {
                    Ok(network_of(IpAddr::V6(ip), prefix))
                }
            },
        }
    }
}

/// The rule that a payload entry `SRC-IP-CIDR,<CIDR>` spells, or why it spells none.
pub open spec fn payload_rule_text(entry: Seq<char>) -> Result<Rule, Seq<char>> {
    let fields = text::split(entry, ',');
    if fields.len() == 2 && text::eq_ignore_case(text::trimmed(fields[0]), "SRC-IP-CIDR"@)
        && text::trimmed(fields[1]).len() > 0 {
        rule_text(text::trimmed(fields[1]))
    } else {
        Err("invalid source whitelist payload entry; expected SRC-IP-CIDR,<CIDR>: "@ + entry)
    }
}

/// The rules that `entries` spell, or why the first entry that spells none does not.
pub open spec fn rules_text(entries: Seq<Seq<char>>) -> Result<Seq<Rule>, Seq<char>>
    decreases entries.len(),
{
    if entries.len() == 0 {
        Ok(Seq::empty())
    } else {
        match payload_rule_text(entries[0]) {
            Err(message) => Err(message),
            Ok(rule) => match rules_text(entries.skip(1)) {
                Err(message) => Err(message),
                Ok(rest) => Ok(seq![rule] + rest),
            },
        }
    }
}

fn network_rule(ip: IpAddr, prefix: u8) -> (r: Rule)
    requires
        prefix <= 128,
        ip is V4 ==> prefix <= 32,
    ensures
        r == network_of(ip, prefix),
        r.wf(),
{
    match ip {
        IpAddr::V4(ip) => {
            proof {
                mask::lemma_base_is_base(ip as nat, 32, prefix as nat);
            }
            Rule::V4 { network: ip & v4_mask(prefix), prefix }
        },
        IpAddr::V6(ip) => {
            if let Some(v4) = to_mapped_v4(ip) {
                if prefix >= 96 {
                    let prefix: u8 = prefix - 96;
                    proof {
                        mask::lemma_base_is_base(v4 as nat, 32, prefix as nat);
                    }
                    return Rule::V4 { network: v4 & v4_mask(prefix), prefix };
                }
            }
            proof {
                mask::lemma_base_is_base(ip as nat, 128, prefix as nat);
            }
            Rule::V6 { network: ip & v6_mask(prefix), prefix }
        },
    }
}

/// Whether an outcome with its text in a `String` is the outcome `expected`.
pub open spec fn outcome_is<T>(r: Result<T, String>, expected: Result<T, Seq<char>>) -> bool {
    match expected {
        Ok(value) => r == Ok::<T, String>(value),
        Err(message) => r matches Err(m) && m@ == message,
    }
}

/// Reads an address with an optional prefix length.
pub fn parse_rule(entry: &str) -> (r: Result<Rule, String>)
    ensures
        outcome_is(r, rule_text(entry@)),
        r matches Ok(rule) ==> rule.wf(),
{
    let entry = trim(entry);
    if entry.is_empty() {
        return Err(String::from_str("source whitelist contains an empty entry"));
    }
    let parts = split_str(entry, '/');
    let ghost view = |piece: &str| piece@;
    assert(parts@.map_values(view).len() == parts@.len());
    assert forall|i: int| 0 <= i < parts.len() implies text::split(entry@, '/')[i]
        == #[trigger] parts@[i]@ by {
        assert(parts@.map_values(view)[i] == view(parts@[i]));
    }
    proof {
        text::lemma_split_is_not_empty(entry@, '/');
    }
    if parts.len() > 2 {
        return Err(join("invalid source whitelist entry: ", entry));
    }
    let prefix: Option<u8> = if parts.len() == 2 {
        match parse_u8(&to_chars(parts[1])) {
            Some(prefix) => Some(prefix),
            None => {
                return Err(join("invalid CIDR prefix in source whitelist entry: ", entry));
            },
        }
    } else {
        None
    };
    match IpAddr::parse(parts[0]) {
        None => Err(join("invalid IP address in source whitelist entry: ", entry)),
        Some(IpAddr::V4(ip)) => {
            let prefix: u8 = match prefix {
                Some(prefix) => prefix,
                None => 32,
            };
            if prefix > 32 {
                return Err(join("IPv4 prefix must be between 0 and 32: ", entry));
            }
            Ok(network_rule(IpAddr::V4(ip), prefix))
        },
        Some(IpAddr::V6(ip)) => {
            let prefix: u8 = match prefix {
                Some(prefix) => prefix,
                None => 128,
            };
            if prefix > 128 {
                return Err(join("IPv6 prefix must be between 0 and 128: ", entry));
            }
            Ok(network_rule(IpAddr::V6(ip), prefix))
        },
    }
}

/// Reads a payload entry `SRC-IP-CIDR,<CIDR>`.
pub fn parse_payload_rule(entry: &str) -> (r: Result<Rule, String>)
    ensures
        outcome_is(r, payload_rule_text(entry@)),
        r matches Ok(rule) ==> rule.wf(),
{
    let fields = split_str(entry, ',');
    let ghost view = |piece: &str| piece@;
    assert(fields@.map_values(view).len() == fields@.len());
    assert forall|i: int| 0 <= i < fields.len() implies text::split(entry@, ',')[i]
        == #[trigger] fields@[i]@ by {
        assert(fields@.map_values(view)[i] == view(fields@[i]));
    }
    if fields.len() == 2 {
        let rule_type = to_chars(trim(fields[0]));
        let source = trim(fields[1]);
        if same_ignoring_case(&rule_type, &to_chars("SRC-IP-CIDR")) && !source.is_empty() {
            return parse_rule(source);
        }
    }
    Err(
        join(
            "invalid source whitelist payload entry; expected SRC-IP-CIDR,<CIDR>: ",
            entry,
        ),
    )
}

/// The payload that a document lists: it holds the name `payload` and no other, and a payload
/// without a list is empty. The text for a missing or an unknown name says which it is, not
/// where in the document it stands.
pub open spec fn payload_text(document: Result<yaml::Mapping, Seq<char>>) -> Result<
    Seq<Seq<char>>,
    Seq<char>,
> {
    match document {
        Err(message) => Err(message),
        Ok(entries) => {
            let k = first_unknown(entries);
            if k < entries.len() {
                Err("unknown field `"@ + entries[k as int].0 + "`, expected `payload`"@)
            } else if entries.len() == 0 {
                Err("missing field `payload`"@)
            } else if entries.len() > 1 {
                Err("duplicate field `payload`"@)
            } else {
                match entries[0].1 {
                    Some(list) => Ok(list),
                    None => Ok(Seq::empty()),
                }
            }
        },
    }
}

/// Position of the first entry under another name than `payload`.
pub open spec fn first_unknown(entries: yaml::Mapping) -> nat
    decreases entries.len(),
{
    if entries.len() == 0 || entries[0].0 != "payload"@ {
        0
    } else {
        1 + first_unknown(entries.skip(1))
    }
}

proof fn lemma_first_unknown(entries: yaml::Mapping, k: nat)
    requires
        k <= entries.len(),
        forall|j: int| 0 <= j < k ==> (#[trigger] entries[j]).0 == "payload"@,
        k < entries.len() ==> entries[k as int].0 != "payload"@,
    ensures
        first_unknown(entries) == k,
    decreases entries.len(),
{
    if k > 0 {
        assert(entries[0].0 == "payload"@);
        assert forall|j: int| 0 <= j < k - 1 implies (#[trigger] entries.skip(1)[j]).0
            == "payload"@ by {
            assert(entries[j + 1].0 == "payload"@);
        }
        lemma_first_unknown(entries.skip(1), (k - 1) as nat);
    }
}

fn payload_of(document: Result<Vec<(String, Option<Vec<String>>)>, String>) -> (r: Result<
    Vec<String>,
    String,
>)
    ensures
        match payload_text(yaml::document_view(document)) {
            Ok(list) => r matches Ok(l) && yaml::texts(l@) == list,
            Err(message) => r matches Err(m) && m@ == message,
        },
{
    let ghost view = yaml::document_view(document);
    let mut entries = match document {
        Ok(entries) => entries,
        Err(message) => {
            return Err(message);
        },
    };
    let ghost mapping = view->Ok_0;
    assert(mapping.len() == entries.len());
    assert forall|j: int| 0 <= j < entries.len() implies mapping[j] == yaml::entry_view(
        #[trigger] entries@[j],
    ) by {}
    let payload = String::from_str("payload");
    let n: usize = entries.len();
    let mut i: usize = 0;
    while i < n
        invariant
            i <= n == entries.len() == mapping.len(),
            payload@ == "payload"@,
            view == Ok::<yaml::Mapping, Seq<char>>(mapping),
            forall|j: int| 0 <= j < n ==> mapping[j] == yaml::entry_view(#[trigger] entries@[j]),
            forall|j: int| 0 <= j < i ==> (#[trigger] mapping[j]).0 == "payload"@,
            view == yaml::document_view(document),
        decreases n - i,
    {
        if entries[i].0 != payload {
            proof {
                assert(mapping[i as int] == yaml::entry_view(entries@[i as int]));
                lemma_first_unknown(mapping, i as nat);
            }
            let mut message = join("unknown field `", entries[i].0.as_str());
            message.append("`, expected `payload`");
            return Err(message);
        }
        assert(mapping[i as int] == yaml::entry_view(entries@[i as int]));
        i = i + 1;
    }
    proof {
        lemma_first_unknown(mapping, n as nat);
    }
    if n == 0 {
        return Err(String::from_str("missing field `payload`"));
    }
    if n > 1 {
        return Err(String::from_str("duplicate field `payload`"));
    }
    assert(mapping[0] == yaml::entry_view(entries@[0]));
    let entry = entries.remove(0);
    match entry.1 {
        Some(list) => Ok(list),
        None => {
            let none: Vec<String> = Vec::new();
            assert(yaml::texts(none@) == Seq::<Seq<char>>::empty());
            Ok(none)
        },
    }
}

/// The rules of a whitelist.
pub struct Rules {
    entries: Vec<Rule>,
}

impl View for Rules {
    type V = Seq<Rule>;

    closed spec fn view(&self) -> Seq<Rule> {
        self.entries@
    }
}

/// Whether one of `rules` covers `source`, an IPv4-mapped source counting as IPv4.
pub open spec fn admits(rules: Seq<Rule>, source: IpAddr) -> bool {
    exists|i: int| 0 <= i < rules.len() && (#[trigger] rules[i]).covers(source.unmapped())
}

impl Default for Rules {
    /// No rules.
    fn default() -> (r: Rules)
        ensures
            r@ == Seq::<Rule>::empty(),
    {
        Rules { entries: Vec::new() }
    }
}

impl Rules {
    #[verifier::type_invariant]
    spec fn inv(self) -> bool {
        forall|i: int| 0 <= i < self.entries@.len() ==> (#[trigger] self.entries@[i]).wf()
    }

    /// Reads a rule file.
    pub fn parse(content: &str) -> (r: Result<Rules, String>)
        ensures
            is_rules_of(r, yaml::yaml_mapping(content@)),
    {
        Rules::from_document(read_mapping(content))
    }

    /// The rules of a document, given as the mapping it holds or the error of reading it.
    pub fn from_document(document: Result<Vec<(String, Option<Vec<String>>)>, String>) -> (r: Result<
        Rules,
        String,
    >)
        ensures
            is_rules_of(r, yaml::document_view(document)),
    {
        let payload = match payload_of(document) {
            Ok(payload) => payload,
            Err(message) => {
                return Err(message);
            },
        };
        let ghost list = yaml::texts(payload@);
        let mut entries: Vec<Rule> = Vec::new();
        let mut i: usize = 0;
        assert(list.skip(0) == list);
        while i < payload.len()
            invariant
                i <= payload.len(),
                list == yaml::texts(payload@),
                payload_text(yaml::document_view(document)) == Ok::<Seq<Seq<char>>, Seq<char>>(
                    list,
                ),
                forall|j: int| 0 <= j < entries@.len() ==> (#[trigger] entries@[j]).wf(),
                rules_text(list) == (match rules_text(list.skip(i as int)) {
                    Ok(rest) => Ok(entries@ + rest),
                    Err(message) => Err(message),
                }),
            decreases payload.len() - i,
        {
            assert(list.skip(i as int)[0] == payload@[i as int]@);
            assert(list.skip(i as int).skip(1) == list.skip(i + 1));
            let ghost before = entries@;
            match parse_payload_rule(payload[i].as_str()) {
                Ok(rule) => {
                    entries.push(rule);
                    proof {
                        if let Ok(rest) = rules_text(list.skip(i + 1)) {
                            assert(before + (seq![rule] + rest) == entries@ + rest);
                        }
                    }
                },
                Err(message) => {
                    return Err(message);
                },
            }
            i = i + 1;
        }
        assert(entries@ + Seq::<Rule>::empty() == entries@);
        Ok(Rules { entries })
    }

    /// Whether a rule covers `source`.
    pub fn allows(&self, source: IpAddr) -> (r: bool)
        ensures
            r == admits(self@, source),
    {
        proof {
            use_type_invariant(self);
        }
        let normalized = normalize_ip(source);
        let mut i: usize = 0;
        while i < self.entries.len()
            invariant
                i <= self.entries.len(),
                forall|j: int|
                    0 <= j < self.entries@.len() ==> (#[trigger] self.entries@[j]).wf(),
                forall|j: int| 0 <= j < i ==> !(#[trigger] self.entries@[j]).covers(normalized),
                normalized == source.unmapped(),
            decreases self.entries.len() - i,
        {
            if self.entries[i].allows(normalized) {
                assert(self@[i as int].covers(normalized));
                return true;
            }
            i = i + 1;
        }
        false
    }

    /// The number of rules.
    pub fn len(&self) -> (r: usize)
        ensures
            r == self@.len(),
    {
        self.entries.len()
    }
}

/// Whether `r` is what the rules of `document` are: all of them, in order, or the error.
pub open spec fn is_rules_of(
    r: Result<Rules, String>,
    document: Result<yaml::Mapping, Seq<char>>,
) -> bool {
    match payload_text(document) {
        Err(message) => r matches Err(m) && m@ == message,
        Ok(list) => match rules_text(list) {
            Err(message) => r matches Err(m) && m@ == message,
            Ok(rules) => r matches Ok(rs) && rs@ == rules,
        },
    }
}

/// A network covers the address it was made of, unless that is an IPv4-mapped address with a
/// prefix too short to be an IPv4 network.
pub proof fn law_network_covers_its_address(ip: IpAddr, prefix: u8)
    requires
        prefix <= 128,
        ip is V4 ==> prefix <= 32,
        prefix >= 96 || ip.unmapped() == ip,
    ensures
        network_of(ip, prefix).covers(ip.unmapped()),
{
    match ip {
        IpAddr::V4(ip) => mask::lemma_base_is_base(ip as nat, 32, prefix as nat),
        IpAddr::V6(ip) => match addr::mapped_v4(ip) {
            Some(v4) if prefix >= 96 => mask::lemma_base_is_base(
                v4 as nat,
                32,
                (prefix - 96) as nat,
            ),
            _ => mask::lemma_base_is_base(ip as nat, 128, prefix as nat),
        },
    }
}

/// A network is decided by prefix alone: it covers exactly the addresses of its family that
/// share the first `prefix` bits with the address it was made of.
pub proof fn law_network_covers_its_prefix(ip: u32, other: u32, ip6: u128, other6: u128, prefix: u8)
    requires
        prefix <= 128,
    ensures
        prefix <= 32 ==> (network_of(IpAddr::V4(ip), prefix).covers(IpAddr::V4(other))
            <==> mask::same_prefix(other as nat, ip as nat, 32, prefix as nat)),
        addr::mapped_v4(ip6) is None ==> (network_of(IpAddr::V6(ip6), prefix).covers(
            IpAddr::V6(other6),
        ) <==> mask::same_prefix(other6 as nat, ip6 as nat, 128, prefix as nat)),
{
    if prefix <= 32 {
        mask::lemma_base_is_base(ip as nat, 32, prefix as nat);
    }
    mask::lemma_base_is_base(ip6 as nat, 128, prefix as nat);
}

/// A network with all bits in its prefix covers its own address and no other.
pub proof fn law_full_prefix_covers_one_address(ip: IpAddr, other: IpAddr)
    ensures
        ip is V4 ==> (network_of(ip, 32).covers(other) <==> other == ip),
        ip is V6 ==> (network_of(ip, 128).covers(other) <==> other == ip.unmapped()),
{
    lemma2_to64();
    match ip {
        IpAddr::V4(ip) => mask::lemma_base_is_base(ip as nat, 32, 32),
        IpAddr::V6(ip) => match addr::mapped_v4(ip) {
            Some(v4) => mask::lemma_base_is_base(v4 as nat, 32, 32),
            None => mask::lemma_base_is_base(ip as nat, 128, 128),
        },
    }
}

/// A network with an empty prefix covers every address of its family.
pub proof fn law_empty_prefix_covers_the_family(ip: u32, other: u32, ip6: u128, other6: u128)
    ensures
        network_of(IpAddr::V4(ip), 0).covers(IpAddr::V4(other)),
        network_of(IpAddr::V6(ip6), 0).covers(IpAddr::V6(other6)),
{
    mask::lemma_below_pow2(other as nat, 32);
    mask::lemma_below_pow2(ip as nat, 32);
    mask::lemma_below_pow2(other6 as nat, 128);
    mask::lemma_below_pow2(ip6 as nat, 128);
    mask::lemma_base_is_base(ip as nat, 32, 0);
    mask::lemma_base_is_base(ip6 as nat, 128, 0);
}

/// An IPv6 network never covers an IPv4 source, nor an IPv4-mapped one: not even `::/0`.
pub proof fn law_ipv6_networks_never_cover_ipv4(network: u128, prefix: u8, source: IpAddr)
    requires
        source.unmapped() is V4,
    ensures
        !admits(seq![Rule::V6 { network, prefix }], source),
{
}

/// One entry that spells no rule rejects the whole list.
pub proof fn law_one_invalid_entry_rejects_all(entries: Seq<Seq<char>>, i: int)
    requires
        0 <= i < entries.len(),
        payload_rule_text(entries[i]) is Err,
    ensures
        rules_text(entries) is Err,
    decreases entries.len(),
{
    if i > 0 {
        law_one_invalid_entry_rejects_all(entries.skip(1), i - 1);
    }
}

/// A list that is not rejected gives one rule for each entry, in order.
pub proof fn law_each_entry_gives_its_rule(entries: Seq<Seq<char>>, i: int)
    requires
        rules_text(entries) is Ok,
        0 <= i < entries.len(),
    ensures
        rules_text(entries)->Ok_0.len() == entries.len(),
        payload_rule_text(entries[i]) == Ok::<Rule, Seq<char>>(rules_text(entries)->Ok_0[i]),
    decreases entries.len(),
{
    if i > 0 {
        law_each_entry_gives_its_rule(entries.skip(1), i - 1);
    } else if entries.len() > 1 {
        law_each_entry_gives_its_rule(entries.skip(1), 0);
    }
}

/// A list is rejected only for an entry that spells no rule.
pub proof fn law_valid_entries_are_accepted(entries: Seq<Seq<char>>)
    requires
        rules_text(entries) is Err,
    ensures
        exists|i: int|
            0 <= i < entries.len() && payload_rule_text(#[trigger] entries[i]) is Err,
    decreases entries.len(),
{
    if payload_rule_text(entries[0]) is Ok {
        let rest = entries.skip(1);
        law_valid_entries_are_accepted(rest);
        let i = choose|i: int|
            0 <= i < rest.len() && payload_rule_text(#[trigger] rest[i]) is Err;
        assert(entries[i + 1] == rest[i]);
    }
}

/// A longer list admits what either of its parts admits.
pub proof fn law_rules_admit_independently(a: Seq<Rule>, b: Seq<Rule>, source: IpAddr)
    ensures
        admits(a + b, source) <==> admits(a, source) || admits(b, source),
{
    let whole = a + b;
    let s = source.unmapped();
    if admits(a, source) {
        let i = choose|i: int| 0 <= i < a.len() && (#[trigger] a[i]).covers(s);
        assert(whole[i].covers(s));
    }
    if admits(b, source) {
        let i = choose|i: int| 0 <= i < b.len() && (#[trigger] b[i]).covers(s);
        assert(whole[a.len() + i].covers(s));
    }
    if admits(whole, source) {
        let i = choose|i: int| 0 <= i < whole.len() && (#[trigger] whole[i]).covers(s);
        if i < a.len() {
            assert(a[i].covers(s));
        } else {
            assert(b[i - a.len()].covers(s));
        }
    }
}

proof fn lemma_address_and_prefix(address: Seq<char>, digits: Seq<char>)
    requires
        address.len() > 0,
        !text::is_white_space(address[0]),
        !address.contains('/'),
        digits.len() > 0,
        text::all_digits(digits, 10),
    ensures
        ({
            let entry = address + seq!['/'] + digits;
            &&& text::trimmed(entry) == entry
            &&& text::split(entry, '/') == seq![address, digits]
            &&& text::u8_text(digits) == if text::numeral(digits, 10) <= 255 {
                Some(text::numeral(digits, 10) as u8)
            } else {
                None
            }
        }),
{
    let entry = address + seq!['/'] + digits;
    let last = digits[digits.len() - 1];
    assert(text::digit_value(last) < 10);
    assert(text::digit_value(digits[0]) < 10);
    assert(entry.last() == last);
    assert(entry[0] == address[0]);
    text::law_trimming_keeps_what_is_trimmed(entry);
    if digits.contains('/') {
        let i = choose|i: int| 0 <= i < digits.len() && digits[i] == '/';
        assert(text::digit_value(digits[i]) < 10);
    }
    text::lemma_split_at(address, digits, '/');
    text::lemma_split_of_one(digits, '/');
    assert(seq![address] + seq![digits] == seq![address, digits]);
}

/// An entry of an IPv4 address, a slash and a number in decimal digits is a rule where the
/// number is at most 32. The rule covers an IPv4 source exactly where the source and the
/// address share as many leading bits as the number says, and no IPv6 source.
pub proof fn law_ipv4_networks_are_read(
    address: Seq<char>,
    ip: u32,
    digits: Seq<char>,
    source: u32,
    other: u128,
)
    requires
        address.len() > 0,
        !text::is_white_space(address[0]),
        !address.contains('/'),
        addr::ip_text(address) == Some(IpAddr::V4(ip)),
        digits.len() > 0,
        text::all_digits(digits, 10),
    ensures
        ({
            let n = text::numeral(digits, 10);
            let read = rule_text(address + seq!['/'] + digits);
            &&& n > 32 ==> read is Err
            &&& n <= 32 ==> {
                &&& read is Ok
                &&& read->Ok_0.covers(IpAddr::V4(source)) <==> source as nat / pow2((32 - n) as nat)
                    == ip as nat / pow2((32 - n) as nat)
                &&& !read->Ok_0.covers(IpAddr::V6(other))
            }
        }),
{
    lemma_address_and_prefix(address, digits);
    let n = text::numeral(digits, 10);
    if n <= 32 {
        mask::lemma_base_is_base(ip as nat, 32, n);
    }
}

/// An entry of an IPv6 address, a slash and a number in decimal digits is a rule where the
/// number is at most 128. The rule covers an IPv6 source exactly where the source and the
/// address share as many leading bits as the number says, and no IPv4 source. Where the address
/// maps an IPv4 address and the number is at least 96, the rule is about IPv4 sources instead,
/// with the bits that remain.
pub proof fn law_ipv6_networks_are_read(
    address: Seq<char>,
    ip: u128,
    digits: Seq<char>,
    source: u128,
    other: u32,
)
    requires
        address.len() > 0,
        !text::is_white_space(address[0]),
        !address.contains('/'),
        addr::ip_text(address) == Some(IpAddr::V6(ip)),
        digits.len() > 0,
        text::all_digits(digits, 10),
    ensures
        ({
            let n = text::numeral(digits, 10);
            let read = rule_text(address + seq!['/'] + digits);
            let mapped = 0xffff_0000_0000 <= ip <= 0xffff_ffff_ffff && n >= 96;
            &&& n > 128 ==> read is Err
            &&& n <= 128 ==> read is Ok
            &&& n <= 128 && !mapped ==> {
                &&& read->Ok_0.covers(IpAddr::V6(source)) <==> source as nat / pow2(
                    (128 - n) as nat,
                ) == ip as nat / pow2((128 - n) as nat)
                &&& !read->Ok_0.covers(IpAddr::V4(other))
            }
            &&& n <= 128 && mapped ==> {
                &&& read->Ok_0.covers(IpAddr::V4(other)) <==> other as nat / pow2((128 - n) as nat)
                    == (ip - 0xffff_0000_0000) as nat / pow2((128 - n) as nat)
                &&& !read->Ok_0.covers(IpAddr::V6(source))
            }
        }),
{
    lemma_address_and_prefix(address, digits);
    let n = text::numeral(digits, 10);
    if n <= 128 {
        mask::lemma_base_is_base(ip as nat, 128, n);
        match addr::mapped_v4(ip) {
            Some(v4) => {
                if n >= 96 {
                    mask::lemma_base_is_base(v4 as nat, 32, (n - 96) as nat);
                }
            },
            None => {},
        }
    }
}

/// An entry of an address alone is a rule that covers this address and no other; one that maps
/// an IPv4 address covers that.
pub proof fn law_single_addresses_are_read(entry: Seq<char>, source: IpAddr)
    requires
        entry.len() > 0,
        !text::is_white_space(entry[0]),
        !text::is_white_space(entry.last()),
        !entry.contains('/'),
    ensures
        rule_text(entry) is Ok <==> addr::ip_text(entry) is Some,
        addr::ip_text(entry) matches Some(ip) ==> (rule_text(entry)->Ok_0.covers(source) <==> source
            == ip.unmapped()),
{
    text::law_trimming_keeps_what_is_trimmed(entry);
    text::lemma_split_of_one(entry, '/');
    match addr::ip_text(entry) {
        Some(ip) => {
            law_full_prefix_covers_one_address(ip, source);
        },
        None => {},
    }
}

/// An entry with a slash is no rule unless an address stands before it and a number after it,
/// and there is no other slash.
pub proof fn law_other_entries_are_refused(
    address: Seq<char>,
    prefix: Seq<char>,
    rest: Seq<char>,
)
    requires
        !address.contains('/'),
        !prefix.contains('/'),
    ensures
        ({
            let entry = address + seq!['/'] + prefix;
            text::trimmed(entry) == entry && (addr::ip_text(address) is None || text::u8_text(
                prefix,
            ) is None) ==> rule_text(entry) is Err
        }),
        ({
            let entry = address + seq!['/'] + (prefix + seq!['/'] + rest);
            text::trimmed(entry) == entry ==> rule_text(entry) is Err
        }),
        rule_text(Seq::empty()) is Err,
{
    text::lemma_split_at(address, prefix, '/');
    text::lemma_split_of_one(prefix, '/');
    text::lemma_split_at(prefix, rest, '/');
    text::lemma_split_at(address, prefix + seq!['/'] + rest, '/');
    text::law_joining_undoes_splitting(rest, '/');
    assert((seq![address] + seq![prefix])[0] == address);
    assert((seq![address] + seq![prefix])[1] == prefix);
}

/// White space around an entry does not count.
pub proof fn law_outer_white_space_does_not_count(entry: Seq<char>)
    ensures
        rule_text(text::trimmed(entry)) == rule_text(entry),
{
    text::law_trimming_removes_the_outer_white_space(entry);
    text::law_trimming_keeps_what_is_trimmed(text::trimmed(entry));
}

/// A payload entry has two fields: the word `SRC-IP-CIDR`, in large or small letters, and an
/// entry that is not empty. It is the rule that the entry is. White space around a field does
/// not count.
pub proof fn law_payload_entries_are_read(word: Seq<char>, entry: Seq<char>)
    requires
        !word.contains(','),
        !entry.contains(','),
    ensures
        text::eq_ignore_case(text::trimmed(word), "SRC-IP-CIDR"@) && text::trimmed(entry).len() > 0
            ==> payload_rule_text(word + seq![','] + entry) == rule_text(entry),
        !(text::eq_ignore_case(text::trimmed(word), "SRC-IP-CIDR"@) && text::trimmed(entry).len()
            > 0) ==> payload_rule_text(word + seq![','] + entry) is Err,
{
    text::lemma_split_at(word, entry, ',');
    text::lemma_split_of_one(entry, ',');
    let fields = seq![word] + seq![entry];
    assert(fields[0] == word && fields[1] == entry);
    law_outer_white_space_does_not_count(entry);
}

/// A payload entry without a comma, or with more than one, is refused.
pub proof fn law_payload_entries_have_two_fields(
    first: Seq<char>,
    second: Seq<char>,
    rest: Seq<char>,
)
    requires
        !first.contains(','),
        !second.contains(','),
    ensures
        payload_rule_text(first) is Err,
        payload_rule_text(first + seq![','] + (second + seq![','] + rest)) is Err,
{
    text::lemma_split_of_one(first, ',');
    text::lemma_split_at(second, rest, ',');
    text::lemma_split_at(first, second + seq![','] + rest, ',');
    text::law_joining_undoes_splitting(rest, ',');
}

proof fn lemma_dotted_entry(a: u8, b: u8, c: u8, d: u8, n: u8)
    requires
        n <= 32,
    ensures
        ({
            let address = addr::dotted(a as nat, b as nat, c as nat, d as nat);
            let digits = text::decimal(n as nat);
            let ip = (a * 0x100_0000 + b * 0x1_0000 + c * 0x100 + d) as u32;
            &&& address.len() > 0
            &&& !text::is_white_space(address[0])
            &&& !address.contains('/')
            &&& !(address + seq!['/'] + digits).contains(',')
            &&& addr::ip_text(address) == Some(IpAddr::V4(ip))
            &&& digits.len() > 0
            &&& text::all_digits(digits, 10)
            &&& text::numeral(digits, 10) == n
        }),
{
    let address = addr::dotted(a as nat, b as nat, c as nat, d as nat);
    let digits = text::decimal(n as nat);
    let entry = address + seq!['/'] + digits;
    addr::lemma_dotted_chars(a as nat, b as nat, c as nat, d as nat);
    addr::law_dotted_notation_is_read(a, b, c, d);
    text::law_decimal_text_reads_back(n as nat);
    assert(text::digit_value(address[0]) < 10);
    if entry.contains(',') {
        let i = choose|i: int| 0 <= i < entry.len() && entry[i] == ',';
        if i < address.len() {
            assert(address.contains(address[i]));
        } else {
            assert(text::digit_value(digits[i - address.len() - 1]) < 10);
        }
    }
}

/// The payload entry for an IPv4 network in the usual notation: for any four octets and any
/// prefix length up to 32 it is a rule, which covers a source exactly where the source shares
/// that many leading bits with the address of these octets.
pub proof fn law_dotted_networks_are_let_in(a: u8, b: u8, c: u8, d: u8, n: u8, source: u32)
    requires
        n <= 32,
    ensures
        ({
            let address = addr::dotted(a as nat, b as nat, c as nat, d as nat);
            let entry = "SRC-IP-CIDR"@ + seq![','] + (address + seq!['/'] + text::decimal(n as nat));
            let ip = (a * 0x100_0000 + b * 0x1_0000 + c * 0x100 + d) as nat;
            &&& payload_rule_text(entry) is Ok
            &&& payload_rule_text(entry)->Ok_0.covers(IpAddr::V4(source)) <==> source as nat / pow2(
                (32 - n) as nat,
            ) == ip / pow2((32 - n) as nat)
        }),
{
    let address = addr::dotted(a as nat, b as nat, c as nat, d as nat);
    let digits = text::decimal(n as nat);
    let entry = address + seq!['/'] + digits;
    let ip = (a * 0x100_0000 + b * 0x1_0000 + c * 0x100 + d) as u32;
    lemma_dotted_entry(a, b, c, d, n);
    law_ipv4_networks_are_read(address, ip, digits, source, 0);
    lemma_address_and_prefix(address, digits);
    lemma_source_word();
    law_payload_entries_are_read("SRC-IP-CIDR"@, entry);
}

proof fn lemma_source_word()
    ensures
        !"SRC-IP-CIDR"@.contains(','),
        text::eq_ignore_case(text::trimmed("SRC-IP-CIDR"@), "SRC-IP-CIDR"@),
{
    reveal_strlit("SRC-IP-CIDR");
    text::law_trimming_keeps_what_is_trimmed("SRC-IP-CIDR"@);
}

/// A document is a list of entries exactly where it holds the name `payload` and nothing else;
/// the list is the one that it holds, and empty where it holds none.
pub proof fn law_documents_hold_a_payload(entries: yaml::Mapping, message: Seq<char>)
    ensures
        payload_text(Err(message)) == Err::<Seq<Seq<char>>, Seq<char>>(message),
        payload_text(Ok(entries)) is Ok <==> entries.len() == 1 && entries[0].0 == "payload"@,
        payload_text(Ok(entries)) matches Ok(list) ==> list == match entries[0].1 {
            Some(listed) => listed,
            None => Seq::empty(),
        },
{
    reveal_with_fuel(first_unknown, 2);
    if entries.len() == 1 {
        assert(entries.skip(1).len() == 0);
    }
}

/// Why an entry is no rule.
pub proof fn law_refused_entries_say_why(address: Seq<char>, prefix: Seq<char>, rest: Seq<char>)
    requires
        !address.contains('/'),
        !prefix.contains('/'),
    ensures
        rule_text(Seq::empty()) == Err::<Rule, Seq<char>>(
            "source whitelist contains an empty entry"@,
        ),
        address.len() > 0 && text::trimmed(address) == address && addr::ip_text(address) is None
            ==> rule_text(address) == Err::<Rule, Seq<char>>(
            "invalid IP address in source whitelist entry: "@ + address,
        ),
        ({
            let entry = address + seq!['/'] + prefix;
            text::trimmed(entry) == entry ==> match (text::u8_text(prefix), addr::ip_text(address)) {
                (None, _) => rule_text(entry) == Err::<Rule, Seq<char>>(
                    "invalid CIDR prefix in source whitelist entry: "@ + entry,
                ),
                (Some(_), None) => rule_text(entry) == Err::<Rule, Seq<char>>(
                    "invalid IP address in source whitelist entry: "@ + entry,
                ),
                (Some(n), Some(IpAddr::V4(_))) => n > 32 ==> rule_text(entry) == Err::<
                    Rule,
                    Seq<char>,
                >("IPv4 prefix must be between 0 and 32: "@ + entry),
                (Some(n), Some(IpAddr::V6(_))) => n > 128 ==> rule_text(entry) == Err::<
                    Rule,
                    Seq<char>,
                >("IPv6 prefix must be between 0 and 128: "@ + entry),
            }
        }),
        ({
            let entry = address + seq!['/'] + (prefix + seq!['/'] + rest);
            text::trimmed(entry) == entry ==> rule_text(entry) == Err::<Rule, Seq<char>>(
                "invalid source whitelist entry: "@ + entry,
            )
        }),
{
    text::law_trimming_keeps_what_is_trimmed(Seq::empty());
    text::lemma_split_of_one(address, '/');
    text::lemma_split_at(address, prefix, '/');
    text::lemma_split_of_one(prefix, '/');
    text::lemma_split_at(prefix, rest, '/');
    text::lemma_split_at(address, prefix + seq!['/'] + rest, '/');
    text::law_joining_undoes_splitting(rest, '/');
    assert((seq![address] + seq![prefix])[0] == address);
    assert((seq![address] + seq![prefix])[1] == prefix);
}

/// Why a payload entry is no rule, where that does not lie in its second field.
pub proof fn law_refused_payload_entries_say_why(first: Seq<char>, second: Seq<char>, rest: Seq<char>)
    requires
        !first.contains(','),
        !second.contains(','),
    ensures
        ({
            let reason = "invalid source whitelist payload entry; expected SRC-IP-CIDR,<CIDR>: "@;
            let two = first + seq![','] + second;
            let more = first + seq![','] + (second + seq![','] + rest);
            &&& payload_rule_text(first) == Err::<Rule, Seq<char>>(reason + first)
            &&& payload_rule_text(more) == Err::<Rule, Seq<char>>(reason + more)
            &&& !text::eq_ignore_case(text::trimmed(first), "SRC-IP-CIDR"@) || text::trimmed(
                second,
            ).len() == 0 ==> payload_rule_text(two) == Err::<Rule, Seq<char>>(reason + two)
        }),
{
    law_payload_entries_have_two_fields(first, second, rest);
    text::lemma_split_of_one(first, ',');
    text::lemma_split_of_one(second, ',');
    text::lemma_split_at(first, second, ',');
    assert((seq![first] + seq![second])[0] == first);
    assert((seq![first] + seq![second])[1] == second);
    text::lemma_split_at(second, rest, ',');
    text::lemma_split_at(first, second + seq![','] + rest, ',');
    text::law_joining_undoes_splitting(rest, ',');
}

/// A list that is rejected is rejected for its first entry that is no rule.
pub proof fn law_the_first_invalid_entry_is_named(entries: Seq<Seq<char>>, i: int)
    requires
        0 <= i < entries.len(),
        payload_rule_text(entries[i]) is Err,
        forall|j: int| 0 <= j < i ==> payload_rule_text(#[trigger] entries[j]) is Ok,
    ensures
        rules_text(entries) == Err::<Seq<Rule>, Seq<char>>(payload_rule_text(entries[i])->Err_0),
    decreases entries.len(),
{
    if i > 0 {
        let rest = entries.skip(1);
        assert forall|j: int| 0 <= j < i - 1 implies payload_rule_text(#[trigger] rest[j]) is Ok by {
            assert(payload_rule_text(entries[j + 1]) is Ok);
        }
        law_the_first_invalid_entry_is_named(rest, i - 1);
    }
}

/// Why a document is no list of entries: a name other than `payload`, of which the first is
/// told, or no name at all, or the same name twice.
pub proof fn law_refused_documents_say_why(entries: yaml::Mapping, i: int)
    requires
        0 <= i <= entries.len(),
        forall|j: int| 0 <= j < i ==> (#[trigger] entries[j]).0 == "payload"@,
    ensures
        i < entries.len() && entries[i].0 != "payload"@ ==> payload_text(Ok(entries)) == Err::<
            Seq<Seq<char>>,
            Seq<char>,
        >("unknown field `"@ + entries[i].0 + "`, expected `payload`"@),
        entries.len() == 0 ==> payload_text(Ok(entries)) == Err::<Seq<Seq<char>>, Seq<char>>(
            "missing field `payload`"@,
        ),
        i == entries.len() && i > 1 ==> payload_text(Ok(entries)) == Err::<
            Seq<Seq<char>>,
            Seq<char>,
        >("duplicate field `payload`"@),
{
    if i == entries.len() || entries[i].0 != "payload"@ {
        lemma_first_unknown(entries, i as nat);
    }
}

/// What was read is the outcome that was stated: the same rule, or an error in the same words.
pub proof fn law_outcomes_are_exact(
    r: Result<Rule, String>,
    expected: Result<Rule, Seq<char>>,
    read: Result<Rules, String>,
    document: Result<yaml::Mapping, Seq<char>>,
)
    requires
        outcome_is(r, expected),
        is_rules_of(read, document),
    ensures
        r is Ok <==> expected is Ok,
        r matches Ok(rule) ==> expected == Ok::<Rule, Seq<char>>(rule),
        r matches Err(m) ==> expected == Err::<Rule, Seq<char>>(m@),
        read matches Ok(rules) ==> (payload_text(document) matches Ok(list) && rules_text(list)
            == Ok::<Seq<Rule>, Seq<char>>(rules@)),
        read matches Err(m) ==> payload_text(document) == Err::<Seq<Seq<char>>, Seq<char>>(m@) || (
        payload_text(document) matches Ok(list) && rules_text(list) == Err::<Seq<Rule>, Seq<char>>(
            m@,
        )),
{
}

/// A rule covers the sources of its family that have its leading bits, and no others. Some rule
/// must cover a source for the rules to admit it.
pub proof fn law_rules_cover_by_leading_bits(
    network: u32,
    network6: u128,
    prefix: u8,
    source: u32,
    source6: u128,
    rules: Seq<Rule>,
    ip: IpAddr,
)
    ensures
        prefix <= 32 ==> ((Rule::V4 { network, prefix }).covers(IpAddr::V4(source)) <==> source as nat
            / pow2((32 - prefix) as nat) == network as nat / pow2((32 - prefix) as nat)),
        prefix <= 128 ==> ((Rule::V6 { network: network6, prefix }).covers(IpAddr::V6(source6))
            <==> source6 as nat / pow2((128 - prefix) as nat) == network6 as nat / pow2(
            (128 - prefix) as nat,
        )),
        !(Rule::V4 { network, prefix }).covers(IpAddr::V6(source6)),
        !(Rule::V6 { network: network6, prefix }).covers(IpAddr::V4(source)),
        admits(rules, ip) <==> exists|i: int|
            0 <= i < rules.len() && (#[trigger] rules[i]).covers(ip.unmapped()),
{
}

} // verus!
