//! Editing the manual host list: adding, editing and deleting hosts by name.
//!
//! SSH-config hosts are read-only imports and never pass through here. The
//! edit form is seeded from what the frontend sees of a host, which leaves out
//! its password, identity file and bastion; an edit therefore keeps those
//! unless it brings new ones, and never touches what only key setup records.

use vstd::prelude::*;
use crate::client::{host_views, Host, HostSource, HostView, MonitorMode};
use crate::jump::{
    find_host, first_host_where, lemma_first_host_where, lemma_first_host_where_is, named,
};
use crate::tunnel::{copy_opt_string, opt_chars, ForwardView};

verus! {

/// A host as the add/edit form submits it.
#[derive(Debug, Clone)]
pub struct HostInput {
    pub name: String,
    pub hostname: String,
    pub user: String,
    pub port: u16,
    pub identity_file: Option<String>,
    pub password: Option<String>,
    pub proxy_jump: Option<String>,
    pub tags: Vec<String>,
    pub notes: Option<String>,
}

/// The plain value of a [`HostInput`].
pub struct HostInputView {
    pub name: Seq<char>,
    pub hostname: Seq<char>,
    pub user: Seq<char>,
    pub port: u16,
    pub identity_file: Option<Seq<char>>,
    pub password: Option<Seq<char>>,
    pub proxy_jump: Option<Seq<char>>,
    pub tags: Seq<Seq<char>>,
    pub notes: Option<Seq<char>>,
}

impl View for HostInput {
    type V = HostInputView;

    open spec fn view(&self) -> HostInputView {
        HostInputView {
            name: self.name@,
            hostname: self.hostname@,
            user: self.user@,
            port: self.port,
            identity_file: opt_chars(self.identity_file),
            password: opt_chars(self.password),
            proxy_jump: opt_chars(self.proxy_jump),
            tags: self.tags@.map_values(|t: String| t@),
            notes: opt_chars(self.notes),
        }
    }
}

/// The manual host a form submission describes: what the form holds, and
/// the defaults for everything else.
pub open spec fn manual_host(i: HostInputView) -> HostView {
    HostView {
        name: i.name,
        hostname: i.hostname,
        user: i.user,
        port: i.port,
        identity_file: i.identity_file,
        password: i.password,
        proxy_jump: i.proxy_jump,
        tags: i.tags,
        notes: i.notes,
        source: HostSource::Manual,
        original_ssh_host: None,
        monitoring: MonitorMode::Ssh,
        monitor_port: None,
        local_forwards: Seq::<ForwardView>::empty(),
        tunnel_autostart: false,
        forward_agent: false,
        key_setup_date: None,
        password_auth_disabled: None,
    }
}

/// `a` if it holds something, else `b`.
pub open spec fn either(a: Option<Seq<char>>, b: Option<Seq<char>>) -> Option<Seq<char>> {
    if a is Some {
        a
    } else {
        b
    }
}

/// `new` as an edit of `old`: a password, identity file or bastion left blank
/// keeps the old one, and key-setup records and the SSH-config origin stay.
pub open spec fn edited(new: HostView, old: HostView) -> HostView {
    HostView {
        password: either(new.password, old.password),
        identity_file: either(new.identity_file, old.identity_file),
        proxy_jump: either(new.proxy_jump, old.proxy_jump),
        key_setup_date: old.key_setup_date,
        password_auth_disabled: old.password_auth_disabled,
        original_ssh_host: old.original_ssh_host,
        ..new
    }
}

/// The host list after saving `input`: an edit in place of the first host of
/// that name, or a new host at the end.
pub open spec fn upserted(hosts: Seq<HostView>, input: HostInputView) -> Seq<HostView> {
    let h = manual_host(input);
    let i = first_host_where(hosts, named(h.name));
    if i < 0 {
        hosts.push(h)
    } else {
        hosts.update(i, edited(h, hosts[i]))
    }
}

/// The host list without the hosts named `name`, in order.
pub open spec fn without_named(hosts: Seq<HostView>, name: Seq<char>) -> Seq<HostView>
    decreases hosts.len(),
{
    if hosts.len() == 0 {
        hosts
    } else if hosts.last().name == name {
        without_named(hosts.drop_last(), name)
    } else {
        without_named(hosts.drop_last(), name).push(hosts.last())
    }
}

impl Host {
    /// The manual host a form submission describes.
    pub fn from_input(input: HostInput) -> (h: Host)
        ensures
            h@ == manual_host(input@),
    {
        let h = Host {
            name: input.name,
            hostname: input.hostname,
            user: input.user,
            port: input.port,
            identity_file: input.identity_file,
            password: input.password,
            proxy_jump: input.proxy_jump,
            tags: input.tags,
            notes: input.notes,
            source: HostSource::Manual,
            original_ssh_host: None,
            monitoring: MonitorMode::Ssh,
            monitor_port: None,
            local_forwards: Vec::new(),
            tunnel_autostart: false,
            forward_agent: false,
            key_setup_date: None,
            password_auth_disabled: None,
        };
        assert(h@.local_forwards =~= Seq::<ForwardView>::empty());
        h
    }
}

/// `a` if it holds something, else a copy of `b`.
fn either_of(a: Option<String>, b: &Option<String>) -> (r: Option<String>)
    ensures
        opt_chars(r) == either(opt_chars(a), opt_chars(*b)),
{
    match a {
        Some(x) => Some(x),
        None => copy_opt_string(b),
    }
}

/// Saves `input` into the manual host list by name. A new name appends; an
/// existing one is edited in place, keeping every field the edit form cannot
/// see — password, identity file and bastion unless new ones are given, and
/// key-setup records and the SSH-config origin always.
pub fn upsert(hosts: &mut Vec<Host>, input: HostInput)
    ensures
        host_views(final(hosts)@) == upserted(host_views(old(hosts)@), input@),
{
    let ghost hv = host_views(hosts@);
    let host = Host::from_input(input);
    match find_host(hosts.as_slice(), &host.name, false) {
        Some(i) => {
            let existing = &hosts[i];
            let ghost old_view = existing@;
            assert(hv[i as int] == old_view);
            let merged = Host {
                password: either_of(host.password, &existing.password),
                identity_file: either_of(host.identity_file, &existing.identity_file),
                proxy_jump: either_of(host.proxy_jump, &existing.proxy_jump),
                key_setup_date: copy_opt_string(&existing.key_setup_date),
                password_auth_disabled: existing.password_auth_disabled,
                original_ssh_host: copy_opt_string(&existing.original_ssh_host),
                ..host
            };
            hosts[i] = merged;
            assert(host_views(hosts@) =~= hv.update(i as int, edited(manual_host(input@), old_view)));
        },
        None => {
            hosts.push(host);
            assert(host_views(hosts@) =~= hv.push(manual_host(input@)));
        },
    }
}

/// Drops the hosts named `name` from the manual list. A missing name changes
/// nothing: the end state wanted, the name absent, already holds.
pub fn remove(hosts: &mut Vec<Host>, name: &str)
    ensures
        host_views(final(hosts)@) == without_named(host_views(old(hosts)@), name@),
{
    let ghost hv = host_views(hosts@);
    let key = String::from_str(name);
    let mut kept: Vec<Host> = Vec::new();
    let mut i: usize = 0;
    while i < hosts.len()
        invariant
            i <= hosts@.len() == hv.len(),
            hv == host_views(hosts@),
            key@ == name@,
            host_views(kept@) == without_named(hv.subrange(0, i as int), name@),
        decreases hosts.len() - i,
    {
        assert(hv.subrange(0, i + 1).drop_last() =~= hv.subrange(0, i as int));
        assert(hv[i as int] == hosts@[i as int]@);
        if !hosts[i].name.eq(&key) {
            let ghost before = kept@;
            kept.push(hosts[i].copy());
            assert(host_views(kept@) =~= host_views(before).push(hv[i as int]));
        }
        i = i + 1;
    }
    assert(hv.subrange(0, hv.len() as int) =~= hv);
    *hosts = kept;
}

/// Saving a host makes it the one under its name, with what the form gave it:
/// its address, login, tags and notes, and any password, identity file or
/// bastion the edit brings — a field the edit leaves blank keeps the old
/// host's value, and a new host takes none. Key-setup records and the
/// SSH-config origin stay those of the host edited.
pub proof fn law_a_saved_host_is_found_under_its_name(hosts: Seq<HostView>, input: HostInputView)
    ensures
        ({
            let after = upserted(hosts, input);
            let before = first_host_where(hosts, named(input.name));
            let i = first_host_where(after, named(input.name));
            &&& 0 <= i < after.len()
            &&& after[i].hostname == input.hostname
            &&& after[i].user == input.user
            &&& after[i].port == input.port
            &&& after[i].tags == input.tags
            &&& after[i].notes == input.notes
            &&& after[i].source == HostSource::Manual
            &&& input.identity_file is Some ==> after[i].identity_file == input.identity_file
            &&& input.password is Some ==> after[i].password == input.password
            &&& input.proxy_jump is Some ==> after[i].proxy_jump == input.proxy_jump
            &&& before >= 0 ==> {
                &&& input.identity_file is None ==> after[i].identity_file == hosts[before].identity_file
                &&& input.password is None ==> after[i].password == hosts[before].password
                &&& input.proxy_jump is None ==> after[i].proxy_jump == hosts[before].proxy_jump
                &&& after[i].key_setup_date == hosts[before].key_setup_date
                &&& after[i].password_auth_disabled == hosts[before].password_auth_disabled
                &&& after[i].original_ssh_host == hosts[before].original_ssh_host
            }
            &&& before < 0 ==> {
                &&& after[i].identity_file == input.identity_file
                &&& after[i].password == input.password
                &&& after[i].proxy_jump == input.proxy_jump
                &&& after[i].key_setup_date is None
                &&& i == hosts.len()
            }
            &&& before >= 0 ==> i == before && after.len() == hosts.len()
        }),
{
    let p = named(input.name);
    lemma_first_host_where(hosts, p);
    let i = first_host_where(hosts, p);
    let after = upserted(hosts, input);
    if i < 0 {
        assert forall|j: int| 0 <= j < hosts.len() implies !p(#[trigger] after[j]) by {
            assert(after[j] == hosts[j]);
        }
        lemma_first_host_where_is(after, p, hosts.len() as int);
    } else {
        assert forall|j: int| 0 <= j < i implies !p(#[trigger] after[j]) by {
            assert(after[j] == hosts[j]);
        }
        lemma_first_host_where_is(after, p, i);
    }
}

/// An edit never touches another host: every host but the one saved stays as
/// it was, in place.
pub proof fn law_an_edit_leaves_other_hosts(hosts: Seq<HostView>, input: HostInputView, k: int)
    requires
        0 <= k < hosts.len(),
        k != first_host_where(hosts, named(input.name)),
    ensures
        upserted(hosts, input)[k] == hosts[k],
{
    let h = manual_host(input);
    assert(h.name == input.name);
    let i = first_host_where(hosts, named(h.name));
    lemma_first_host_where(hosts, named(h.name));
    if i < 0 {
        assert(hosts.push(h)[k] == hosts[k]);
    } else {
        assert(hosts.update(i, edited(h, hosts[i]))[k] == hosts[k]);
    }
}

/// Removing a name leaves no host of that name, and every other host as it was,
/// in order.
pub proof fn law_removal_leaves_no_host_of_that_name(hosts: Seq<HostView>, name: Seq<char>, k: int)
    requires
        0 <= k < without_named(hosts, name).len(),
    ensures
        without_named(hosts, name)[k].name != name,
        hosts.contains(without_named(hosts, name)[k]),
    decreases hosts.len(),
{
    if hosts.len() > 0 {
        let rest = without_named(hosts.drop_last(), name);
        if hosts.last().name != name && k == rest.len() {
            assert(hosts[hosts.len() - 1] == hosts.last());
        } else {
            law_removal_leaves_no_host_of_that_name(hosts.drop_last(), name, k);
            let x = without_named(hosts, name)[k];
            assert(x == rest[k]);
            let j = choose|j: int| 0 <= j < hosts.drop_last().len() && hosts.drop_last()[j] == x;
            assert(hosts[j] == x);
        }
    }
}

} // verus!
