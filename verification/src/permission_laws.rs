//! Who may look at what: how words become states, whose word counts, and what no
//! word can open.
use vstd::prelude::*;
use crate::outside::toml_tree;
use crate::paths::final_name;
use crate::permissions::{
    domain_table, domains_in, domains_of_text, entry_for, is_attribute_allowed, is_denied,
    is_domain_allowed, is_outcome, is_resource_allowed, known_domains, lists_attribute, prompt_for,
    recorded, report_line, same_attribute, settled, was_asked, ConfirmationAsker, Confirmed,
    DomainEntryView, DomainState, PermissionConfigView, StateSource,
};
use crate::table::{lemma_put, lookup};
use crate::text::{ascii_lower, contains, lower_char, lowered, occurs_at, split};
use crate::tree::{field, TreeView};

verus! {

proof fn lemma_enabled_is_lowered()
    ensures
        ascii_lower("enabled"@) == "enabled"@,
        ascii_lower("filename"@) == "filename"@,
        ascii_lower("metadata"@) == "metadata"@,
{
    reveal_strlit("enabled");
    reveal_strlit("filename");
    reveal_strlit("metadata");
    assert(ascii_lower("enabled"@) =~= "enabled"@);
    assert(ascii_lower("filename"@) =~= "filename"@);
    assert(ascii_lower("metadata"@) =~= "metadata"@);
}

/// A domain is enabled where a configuration says so in so many words, in
/// whatever case; any other word leaves it disabled. A list of attributes counts
/// where it is a list.
pub proof fn law_only_the_word_enables(t: TreeView)
    ensures
        t is Text ==> (entry_for(t) matches Some(e) && e.attributes is None && (e.state
            == DomainState::Enabled <==> ascii_lower(t->Text_0) == "enabled"@)),
        t is Table ==> (entry_for(t) matches Some(e) && (e.state == DomainState::Enabled
            <==> exists|s: Seq<char>| #[trigger]
            ascii_lower(s) == "enabled"@ && field(t, "state"@) == Some(TreeView::Text(s))) && (
        e.attributes is Some <==> (field(t, "attributes"@) matches Some(TreeView::List(_))))),
        !(t is Text) && !(t is Table) ==> entry_for(t) is None,
{
    lemma_enabled_is_lowered();
    if t is Table {
        match field(t, "state"@) {
            Some(TreeView::Text(s)) => {
                if ascii_lower(s) == "enabled"@ {
                    assert(entry_for(t)->0.state == DomainState::Enabled);
                }
            },
            _ => {},
        }
    }
}

/// The last thing that a document says of a domain counts, whatever the case of
/// its name; what is neither a word nor a table says nothing.
pub proof fn law_the_last_entry_counts(
    front: Seq<(Seq<char>, TreeView)>,
    name: Seq<char>,
    value: TreeView,
    d: Seq<char>,
)
    ensures
        ({
            let before = lookup(domain_table(front), d);
            let after = lookup(domain_table(front.push((name, value))), d);
            if lowered(name) == d && (value is Text || value is Table) {
                after == entry_for(value)
            } else {
                after == before
            }
        }),
        lookup(domain_table(seq![]), d) is None,
{
    let all = front.push((name, value));
    assert(all.drop_last() =~= front);
    lemma_domain_table(front);
    if let Some(e) = entry_for(value) {
        lemma_put(domain_table(front), lowered(name), e);
    }
    let none: Seq<(Seq<char>, DomainEntryView)> = domain_table(seq![]);
    assert(none.len() == 0);
}

proof fn lemma_domain_table(entries: Seq<(Seq<char>, TreeView)>)
    ensures
        crate::table::ordered(domain_table(entries)),
    decreases entries.len(),
{
    if entries.len() > 0 {
        lemma_domain_table(entries.drop_last());
        if let Some(e) = entry_for(entries.last().1) {
            lemma_put(domain_table(entries.drop_last()), lowered(entries.last().0), e);
        }
    }
}

/// What a file says of domains stands under `domains`; a file that is missing or
/// malformed, or has no such table, says nothing.
pub proof fn law_domains_stand_in_their_table(text: Option<Seq<char>>, d: Seq<char>)
    ensures
        (text matches Some(s) && toml_tree(s) matches Ok(t) && field(t, "domains"@) matches Some(
            TreeView::Table(entries),
        ) && domains_of_text(text) == domain_table(entries)) || domains_of_text(text).len() == 0,
        (text matches Some(s) && toml_tree(s) matches Ok(t) && field(t, "domains"@) matches Some(
            TreeView::Table(entries),
        ) && domains_in(t) == domain_table(entries)) || lookup(domains_of_text(text), d) is None,
{
}

/// The project's word counts before the user's, and the user's before the
/// default, which allows the code and its history and nothing else. The report
/// says the same and whose word it was.
pub proof fn law_the_nearest_word_counts(cfg: PermissionConfigView, domain: Seq<char>)
    ensures
        lookup(cfg.project, lowered(domain)) matches Some(e) ==> is_domain_allowed(cfg, domain) == (
        e.state == DomainState::Enabled),
        lookup(cfg.project, lowered(domain)) is None ==> (lookup(
            cfg.global,
            lowered(domain),
        ) matches Some(e) ==> is_domain_allowed(cfg, domain) == (e.state == DomainState::Enabled)),
        lookup(cfg.project, lowered(domain)) is None && lookup(cfg.global, lowered(domain)) is None
            ==> is_domain_allowed(cfg, domain) == (lowered(domain) == "code"@ || lowered(domain)
            == "git"@),
{
}

/// Every domain is reported with what is allowed of it and on whose word.
pub proof fn law_reports_name_their_source(cfg: PermissionConfigView, d: Seq<char>)
    requires
        lowered(d) == d,
    ensures
        ({
            let r = report_line(cfg, d);
            &&& r.domain == d
            &&& r.allowed == is_domain_allowed(cfg, d)
            &&& r.source == StateSource::ProjectConfig <==> lookup(cfg.project, d) is Some
            &&& r.source == StateSource::GlobalConfig <==> lookup(cfg.project, d) is None && lookup(
                cfg.global,
                d,
            ) is Some
            &&& r.source == StateSource::DefaultEnabled ==> r.allowed
            &&& r.source == StateSource::DefaultDisabled ==> !r.allowed
            &&& r.source.is_explicit() <==> lookup(cfg.project, d) is Some || lookup(
                cfg.global,
                d,
            ) is Some
            &&& r.structured <==> seq!["code"@, "git"@, "docker"@, "systemd"@].contains(d)
        }),
{
    let all = seq!["code"@, "git"@, "docker"@, "systemd"@];
    assert(all[0] == "code"@ && all[1] == "git"@ && all[2] == "docker"@ && all[3] == "systemd"@);
    assert(all.len() == 4);
}

/// The structured domains and the personal ones are all known, each once.
pub proof fn law_known_domains(d: Seq<char>)
    ensures
        known_domains().len() == 8,
        known_domains().contains(d) <==> d == "code"@ || d == "git"@ || d == "docker"@ || d
            == "systemd"@ || d == "photos"@ || d == "messages"@ || d == "documents"@ || d
            == "browser"@,
{
    let all = known_domains();
    assert(all[0] == "code"@ && all[1] == "git"@ && all[2] == "docker"@ && all[3] == "systemd"@);
    assert(all[4] == "photos"@ && all[5] == "messages"@ && all[6] == "documents"@ && all[7]
        == "browser"@);
}

/// Of a structured domain everything may be read; of another one, where no word
/// lists its attributes, its names and metadata.
pub proof fn law_what_may_be_read(
    cfg: PermissionConfigView,
    domain: Seq<char>,
    attribute: Seq<char>,
)
    ensures
        ({
            let d = lowered(domain);
            let structured = d == "code"@ || d == "git"@ || d == "docker"@ || d == "systemd"@;
            let unlisted = match lookup(cfg.project, d) {
                Some(e) => e.attributes is None,
                None => match lookup(cfg.global, d) {
                    Some(e) => e.attributes is None,
                    None => true,
                },
            };
            &&& structured ==> is_attribute_allowed(cfg, domain, attribute)
            &&& !structured && unlisted ==> (is_attribute_allowed(cfg, domain, attribute)
                <==> ascii_lower(attribute) == "filename"@ || ascii_lower(attribute)
                == "metadata"@)
        }),
{
    lemma_enabled_is_lowered();
}

/// Of a domain that is not structured, what the nearest word lists may be read,
/// in whatever case it is written, and nothing else.
pub proof fn law_listed_attributes_may_be_read(
    cfg: PermissionConfigView,
    domain: Seq<char>,
    attribute: Seq<char>,
    l: Seq<Seq<char>>,
)
    requires
        !seq!["code"@, "git"@, "docker"@, "systemd"@].contains(lowered(domain)),
        match lookup(cfg.project, lowered(domain)) {
            Some(e) => e.attributes == Some(l),
            None => lookup(cfg.global, lowered(domain)) matches Some(e) && e.attributes == Some(l),
        },
    ensures
        is_attribute_allowed(cfg, domain, attribute) <==> exists|i: int|
            0 <= i < l.len() && ascii_lower(#[trigger] l[i]) == ascii_lower(attribute),
{
    let all = seq!["code"@, "git"@, "docker"@, "systemd"@];
    assert(all[0] == "code"@ && all[1] == "git"@ && all[2] == "docker"@ && all[3] == "systemd"@);
    assert(is_attribute_allowed(cfg, domain, attribute) == lists_attribute(l, attribute));
    if lists_attribute(l, attribute) {
        let i = choose|i: int| 0 <= i < l.len() && same_attribute(#[trigger] l[i], attribute);
        assert(ascii_lower(l[i]) == ascii_lower(attribute));
    }
    assert forall|i: int|
        0 <= i < l.len() && ascii_lower(#[trigger] l[i]) == ascii_lower(
            attribute,
        ) implies lists_attribute(l, attribute) by {
        assert(same_attribute(l[i], attribute));
    }
}

/// A path through a directory of keys or a browser's profile is never read,
/// whoever allows the domain, nor is a file whose name looks like a secret; every
/// other path is read where its domain is allowed.
pub proof fn law_what_is_never_read(cfg: PermissionConfigView, domain: Seq<char>, path: Seq<char>)
    ensures
        is_resource_allowed(cfg, domain, path) <==> {
            let places = seq![
                ".ssh"@,
                ".aws"@,
                ".gnupg"@,
                ".mozilla"@,
                "google-chrome"@,
                "chromium"@,
                "brave-browser"@,
                "bravesoftware"@,
            ];
            let names = seq![
                "credential"@,
                "secret"@,
                ".pem"@,
                ".pfx"@,
                "id_rsa"@,
                "id_ed25519"@,
                "id_ecdsa"@,
            ];
            &&& is_domain_allowed(cfg, domain)
            &&& forall|i: int|
                0 <= i < split(path, '/').len() ==> !places.contains(
                    lowered(#[trigger] split(path, '/')[i]),
                )
            &&& final_name(split(path, '/')) matches Some(name) ==> forall|j: int|
                0 <= j < names.len() ==> !contains(lowered(name), #[trigger] names[j])
        },
{
    let places = seq![
        ".ssh"@,
        ".aws"@,
        ".gnupg"@,
        ".mozilla"@,
        "google-chrome"@,
        "chromium"@,
        "brave-browser"@,
        "bravesoftware"@,
    ];
    let names = seq![
        "credential"@,
        "secret"@,
        ".pem"@,
        ".pfx"@,
        "id_rsa"@,
        "id_ed25519"@,
        "id_ecdsa"@,
    ];
    assert(places[0] == ".ssh"@ && places[1] == ".aws"@ && places[2] == ".gnupg"@ && places[3]
        == ".mozilla"@);
    assert(places[4] == "google-chrome"@ && places[5] == "chromium"@ && places[6]
        == "brave-browser"@ && places[7] == "bravesoftware"@);
    assert(names[0] == "credential"@ && names[1] == "secret"@ && names[2] == ".pem"@ && names[3]
        == ".pfx"@);
    assert(names[4] == "id_rsa"@ && names[5] == "id_ed25519"@ && names[6] == "id_ecdsa"@);
}

/// What a name is called that a path ends in: its last part, unless that is empty
/// or leads nowhere.
pub proof fn law_last_parts_are_names(parts: Seq<Seq<char>>, last: Seq<char>)
    ensures
        last.len() > 0 && last != "."@ && last != ".."@ ==> final_name(parts.push(last)) == Some(
            last,
        ),
        last == ".."@ ==> final_name(parts.push(last)) is None,
        last.len() == 0 || last == "."@ ==> final_name(parts.push(last)) == final_name(parts),
{
    reveal_strlit(".");
    reveal_strlit("..");
    assert(parts.push(last).drop_last() =~= parts);
    assert("."@.len() == 1 && ".."@.len() == 2);
}

/// An answer given earlier stands under the domain among the confirmations, as a
/// truth value.
pub proof fn law_where_answers_stand(text: Option<Seq<char>>, domain: Seq<char>, allowed: bool)
    ensures
        recorded(text, domain) == Some(allowed) <==> (text matches Some(s) && toml_tree(
            s,
        ) matches Ok(t) && field(t, "confirmations"@) matches Some(c) && field(c, domain) == Some(
            TreeView::Flag(allowed),
        )),
{
}

/// The project's word settles a question, without it the user's, without that an
/// earlier answer; only where all are silent somebody is asked, by a prompt that
/// names the domain.
pub proof fn law_who_settles_a_question<A: ConfirmationAsker>(
    cfg: PermissionConfigView,
    confirmations: Option<Seq<char>>,
    domain: Seq<char>,
    asker: &A,
    r: Confirmed,
)
    requires
        is_outcome(cfg, confirmations, domain, asker, r),
    ensures
        ({
            let d = lowered(domain);
            let answer = recorded(confirmations, d);
            &&& lookup(cfg.project, d) matches Some(e) ==> r == (Confirmed {
                allowed: e.state == DomainState::Enabled,
                remember: None,
            })
            &&& lookup(cfg.project, d) is None ==> (lookup(cfg.global, d) matches Some(e) ==> r == (
            Confirmed { allowed: e.state == DomainState::Enabled, remember: None }))
            &&& lookup(cfg.project, d) is None && lookup(cfg.global, d) is None ==> (
            answer matches Some(a) ==> r == (Confirmed { allowed: a, remember: None }))
            &&& lookup(cfg.project, d) is None && lookup(cfg.global, d) is None && answer is None
                ==> was_asked(domain, asker, r) && (r.remember matches Some(k) ==> k == r.allowed)
            &&& contains(prompt_for(domain), d)
        }),
{
    let d = lowered(domain);
    let head = "archietect: enable the '"@;
    let p = prompt_for(domain);
    assert(p.subrange(head.len() as int, (head.len() + d.len()) as int) =~= d);
    assert(occurs_at(p, d, head.len() as int));
    assert(settled(cfg, recorded(confirmations, d), domain) is None || r.remember is None);
}

/// No word opens a path that is never read.
pub proof fn law_no_word_opens_a_denied_path(
    one: PermissionConfigView,
    other: PermissionConfigView,
    domain: Seq<char>,
    path: Seq<char>,
)
    requires
        is_domain_allowed(one, domain),
        !is_resource_allowed(one, domain, path),
    ensures
        !is_resource_allowed(other, domain, path),
{
    assert(is_denied(path));
}

/// Small letters are what is left of capitals, character by character.
pub proof fn law_case_is_folded(s: Seq<char>, i: int)
    requires
        0 <= i < s.len(),
    ensures
        ascii_lower(s).len() == s.len(),
        'A' <= s[i] <= 'Z' ==> ascii_lower(s)[i] as int == s[i] as int + 32,
        !('A' <= s[i] <= 'Z') ==> ascii_lower(s)[i] == s[i],
{
    assert(ascii_lower(s)[i] == lower_char(s[i]));
}

} // verus!
