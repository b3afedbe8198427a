use vstd::multiset::Multiset;
use vstd::prelude::*;
use vstd::string::StringExecFns;
use crate::event::{event_at, event_le, lookup_event, EventDescriptor, EventKind};
use crate::menus::opt_view;
use crate::names::{camel_of, upper_camel};

verus! {

broadcast use vstd::seq_lib::group_to_multiset_ensures;

/// How many indices of a category are asked for. Every category of the
/// taxonomy holds fewer events than this.
pub const PROBE_LIMIT: usize = 200;

/// A command of the manifest.
#[derive(Debug, Clone, PartialEq, Eq)]
pub struct Command {
    pub command: String,
    title: String,
    category: Option<String>,
    enablement: Option<String>,
    icon: Option<String>,
    pub event: EventKind,
}

pub struct CommandView {
    pub command: Seq<char>,
    pub title: Seq<char>,
    pub category: Option<Seq<char>>,
    pub enablement: Option<Seq<char>>,
    pub icon: Option<Seq<char>>,
    pub event: EventKind,
}

impl View for Command {
    type V = CommandView;

    closed spec fn view(&self) -> CommandView {
        CommandView {
            command: self.command@,
            title: self.title@,
            category: opt_view(self.category),
            enablement: opt_view(self.enablement),
            icon: opt_view(self.icon),
            event: self.event,
        }
    }
}

/// The identifier of the command that adds an event named `name`.
pub open spec fn command_id_of(name: Seq<char>) -> Seq<char> {
    "gmVfs.add"@ + camel_of(name)
}

/// The enablement predicate of the command that adds an event named `name`.
pub open spec fn enablement_of(name: Seq<char>) -> Seq<char> {
    "view == gmVfs && viewItem =~ /can"@ + camel_of(name) + "Event/"@
}

/// The command synthesized for an event named `name` of kind `kind`.
pub open spec fn command_of(name: Seq<char>, kind: EventKind) -> CommandView {
    CommandView {
        command: command_id_of(name),
        title: name,
        category: Some("Create"@),
        enablement: Some(enablement_of(name)),
        icon: None,
        event: kind,
    }
}

/// Whether the commands are ordered by their events.
pub open spec fn sorted_by_event(s: Seq<Command>) -> bool {
    forall|i: int, k: int| 0 <= i < k < s.len() ==> event_le(#[trigger] s[i]@.event, #[trigger] s[k]@.event)
}

impl Command {
    /// The command that adds the event `event`.
    pub fn new(event: EventDescriptor) -> (r: Command)
        ensures
            r@ == command_of(event.name@, event.kind),
    {
        let nice = upper_camel(event.name.as_str());
        let mut command = String::from_str("gmVfs.add");
        command.append(nice.as_str());
        let mut enablement = String::from_str("view == gmVfs && viewItem =~ /can");
        enablement.append(nice.as_str());
        enablement.append("Event/");
        Command {
            command,
            title: event.name,
            category: Some(String::from_str("Create")),
            enablement: Some(enablement),
            icon: None,
            event: event.kind,
        }
    }

    /// A command given field by field, for an event of kind `event`.
    pub fn from_parts(
        command: String,
        title: String,
        category: Option<String>,
        enablement: Option<String>,
        icon: Option<String>,
        event: EventKind,
    ) -> (r: Command)
        ensures
            r@ == (CommandView {
                command: command@,
                title: title@,
                category: opt_view(category),
                enablement: opt_view(enablement),
                icon: opt_view(icon),
                event,
            }),
    {
        Command { command, title, category, enablement, icon, event }
    }

    pub fn id(&self) -> (r: &String)
        ensures
            r@ == self@.command,
    {
        &self.command
    }

    pub fn event_kind(&self) -> (r: EventKind)
        ensures
            r == self@.event,
    {
        self.event
    }

    pub fn title(&self) -> (r: &String)
        ensures
            r@ == self@.title,
    {
        &self.title
    }

    pub fn category(&self) -> (r: &Option<String>)
        ensures
            opt_view(*r) == self@.category,
    {
        &self.category
    }

    pub fn enablement(&self) -> (r: &Option<String>)
        ensures
            opt_view(*r) == self@.enablement,
    {
        &self.enablement
    }

    pub fn icon(&self) -> (r: &Option<String>)
        ensures
            opt_view(*r) == self@.icon,
    {
        &self.icon
    }
}

/// The commands as they look.
pub open spec fn views(s: Seq<Command>) -> Seq<CommandView> {
    s.map_values(|c: Command| c@)
}

/// Orders commands by their events; the result holds the same commands.
pub fn sort_commands(v: Vec<Command>) -> (r: Vec<Command>)
    ensures
        sorted_by_event(r@),
        r@.len() == v@.len(),
        r@.to_multiset() == v@.to_multiset(),
        views(r@).to_multiset() == views(v@).to_multiset(),
{
    let ghost orig = v@;
    let mut v = v;
    let mut r: Vec<Command> = Vec::new();
    while v.len() > 0
        invariant
            sorted_by_event(r@),
            r@.to_multiset().add(v@.to_multiset()) == orig.to_multiset(),
            views(r@).to_multiset().add(views(v@).to_multiset()) == views(orig).to_multiset(),
            r@.len() + v@.len() == orig.len(),
        decreases v@.len(),
    {
        let ghost v_before = v@;
        let c = v.pop().unwrap();
        proof {
            assert(v_before =~= v@.push(c));
            assert(views(v_before) =~= views(v@).push(c@));
        }
        let mut p: usize = 0;
        while p < r.len() && r[p].event.precedes_or_equals(&c.event)
            invariant
                p <= r@.len(),
                sorted_by_event(r@),
                forall|k: int| 0 <= k < p ==> event_le(#[trigger] r@[k]@.event, c@.event),
            decreases r@.len() - p,
        {
            p = p + 1;
        }
        let ghost r_before = r@;
        r.insert(p, c);
        proof {
            assert(r@ =~= r_before.insert(p as int, c));
            assert(views(r@) =~= views(r_before).insert(p as int, c@));
            assert forall|i: int, k: int| 0 <= i < k < r@.len() implies event_le(
                #[trigger] r@[i]@.event,
                #[trigger] r@[k]@.event,
            ) by {
                if p < r_before.len() {
                    assert(!event_le(r_before[p as int]@.event, c@.event));
                }
                if i < p && k > p {
                    assert(event_le(r_before[i]@.event, c@.event));
                }
                if i == p && k > p {
                    assert(event_le(r_before[p as int]@.event, r_before[k - 1]@.event));
                }
                if i < p && k == p {
                    assert(event_le(r_before[i]@.event, c@.event));
                }
                if i > p {
                    assert(event_le(r_before[i - 1]@.event, r_before[k - 1]@.event));
                }
                if k < p {
                    assert(event_le(r_before[i]@.event, r_before[k]@.event));
                }
            }
        }
    }
    proof {
        assert(v@.to_multiset() =~= Multiset::empty());
        assert(r@.to_multiset().add(Multiset::empty()) =~= r@.to_multiset());
        assert(views(v@).to_multiset() =~= Multiset::empty());
        assert(views(r@).to_multiset().add(Multiset::empty()) =~= views(r@).to_multiset());
    }
    r
}

/// The commands made from the descriptors, in their order.
pub open spec fn desc_commands(s: Seq<EventDescriptor>) -> Seq<CommandView> {
    s.map_values(|d: EventDescriptor| command_of(d.name@, d.kind))
}

/// The commands of the events `found`, ordered by their events: one command
/// for each event.
pub fn commands_of(found: Vec<EventDescriptor>) -> (r: Vec<Command>)
    ensures
        sorted_by_event(r@),
        r@.len() == found@.len(),
        views(r@).to_multiset() == desc_commands(found@).to_multiset(),
{
    let ghost descs = found@;
    let mut found = found;
    let mut values: Vec<Command> = Vec::new();
    while found.len() > 0
        invariant
            values@.len() + found@.len() == descs.len(),
            found@ == descs.subrange(values@.len() as int, descs.len() as int),
            forall|j: int| 0 <= j < values@.len() ==> #[trigger] values@[j]@ == command_of(descs[j].name@, descs[j].kind),
        decreases found@.len(),
    {
        let d = found.remove(0);
        proof {
            assert(d == descs[values@.len() as int]);
        }
        values.push(Command::new(d));
        proof {
            assert(found@ =~= descs.subrange(values@.len() as int, descs.len() as int));
        }
    }
    proof {
        assert(views(values@) =~= desc_commands(descs));
    }
    sort_commands(values)
}

/// The events that the taxonomy holds under `category` at the indices below
/// `n`, in index order.
pub open spec fn found_events(category: Seq<char>, n: nat) -> Seq<(Seq<char>, EventKind)>
    decreases n,
{
    if n == 0 {
        Seq::empty()
    } else {
        let before = found_events(category, (n - 1) as nat);
        match event_at(category, (n - 1) as nat) {
            Some(e) => before.push(e),
            None => before,
        }
    }
}

/// The commands of the events that the taxonomy holds under `category` below
/// the probe limit, in index order.
pub open spec fn found_commands(category: Seq<char>) -> Seq<CommandView> {
    found_events(category, PROBE_LIMIT as nat).map_values(|e: (Seq<char>, EventKind)| command_of(e.0, e.1))
}

/// The commands of every event that the taxonomy holds under `category`,
/// asked for at the indices below the probe limit, in the taxonomy's order.
/// An index without an event gives no command.
pub fn synthesize(category: &str) -> (r: Vec<Command>)
    ensures
        sorted_by_event(r@),
        r@.len() == found_events(category@, PROBE_LIMIT as nat).len(),
        views(r@).to_multiset() == found_commands(category@).to_multiset(),
{
    let mut found: Vec<EventDescriptor> = Vec::new();
    let mut i: usize = 0;
    while i < PROBE_LIMIT
        invariant
            i <= PROBE_LIMIT,
            found@.map_values(|d: EventDescriptor| (d.name@, d.kind)) == found_events(category@, i as nat),
        decreases PROBE_LIMIT - i,
    {
        let ghost before = found@;
        match lookup_event(category, i) {
            Some(d) => {
                found.push(d);
                proof {
                    assert(found@.map_values(|d: EventDescriptor| (d.name@, d.kind)) =~= before.map_values(
                        |d: EventDescriptor| (d.name@, d.kind),
                    ).push((d.name@, d.kind)));
                }
            },
            None => {},
        }
        i = i + 1;
    }
    let ghost descs = found@;
    proof {
        assert(desc_commands(descs) =~= found_commands(category@)) by {
            assert(descs.map_values(|d: EventDescriptor| (d.name@, d.kind)) == found_events(category@, PROBE_LIMIT as nat));
            assert forall|j: int| 0 <= j < descs.len() implies desc_commands(descs)[j] == found_commands(category@)[j] by {
                assert(descs.map_values(|d: EventDescriptor| (d.name@, d.kind))[j] == (descs[j].name@, descs[j].kind));
            }
        }
    }
    commands_of(found)
}

/// The baseline command at `i`: (identifier, title, category, icon).
pub open spec fn baseline_entry(i: int) -> (Seq<char>, Seq<char>, Option<Seq<char>>, Option<Seq<char>>) {
    if i == 0 {
        ("gmVfs.reloadWorkspace"@, "Reload"@, None, Some("$(refresh)"@))
    } else if i == 1 {
        ("gmVfs.createScript"@, "New Script"@, Some("Create"@), Some("$(new-file)"@))
    } else if i == 2 {
        ("gmVfs.createObject"@, "New Object"@, Some("Create"@), Some("$(symbol-constructor)"@))
    } else if i == 3 {
        ("gmVfs.createFolder"@, "New Folder"@, Some("Create"@), Some("$(new-folder)"@))
    } else if i == 4 {
        ("gmVfs.deleteFolder"@, "Delete"@, Some("Delete"@), None)
    } else if i == 5 {
        ("gmVfs.deleteResource"@, "Delete"@, Some("Delete"@), None)
    } else if i == 6 {
        ("gmVfs.renameResource"@, "Rename"@, Some("Delete"@), None)
    } else if i == 7 {
        ("gmVfs.renameFolder"@, "Rename"@, Some("Delete"@), None)
    } else {
        ("gmVfs.deleteEvent"@, "Delete"@, Some("Delete"@), None)
    }
}

/// How many baseline commands there are.
pub open spec fn baseline_len() -> nat {
    9
}

/// Whether `c` is the baseline command described by `e`.
pub open spec fn is_baseline(c: CommandView, e: (Seq<char>, Seq<char>, Option<Seq<char>>, Option<Seq<char>>)) -> bool {
    &&& c.command == e.0
    &&& c.title == e.1
    &&& c.category == e.2
    &&& c.icon == e.3
    &&& c.enablement is None
    &&& c.event == EventKind::Create
}

fn opt_string(s: Option<&str>) -> (r: Option<String>)
    ensures
        opt_view(r) == match s {
            Some(t) => Some(t@),
            None => None::<Seq<char>>,
        },
{
    match s {
        Some(t) => Some(String::from_str(t)),
        None => None,
    }
}

fn baseline_command(command: &str, title: &str, category: Option<&str>, icon: Option<&str>) -> (r: Command)
    ensures
        r@.command == command@,
        r@.title == title@,
        r@.category == (match category {
            Some(t) => Some(t@),
            None => None::<Seq<char>>,
        }),
        r@.icon == (match icon {
            Some(t) => Some(t@),
            None => None::<Seq<char>>,
        }),
        r@.enablement is None,
        r@.event == EventKind::Create,
{
    Command {
        command: String::from_str(command),
        title: String::from_str(title),
        category: opt_string(category),
        enablement: None,
        icon: opt_string(icon),
        event: EventKind::Create,
    }
}

/// The identifiers of the baseline commands, in order.
pub open spec fn baseline_ids() -> Seq<Seq<char>> {
    Seq::new(baseline_len(), |i: int| baseline_entry(i).0)
}

/// The identifiers of the commands, in order.
pub open spec fn ids_of(s: Seq<Command>) -> Seq<Seq<char>> {
    s.map_values(|c: Command| c@.command)
}

/// The hand-written commands that every manifest starts with.
pub fn default_commands() -> (r: Vec<Command>)
    ensures
        r@.len() == baseline_len(),
        forall|i: int| 0 <= i < r@.len() ==> is_baseline(#[trigger] r@[i]@, baseline_entry(i)),
        ids_of(r@) == baseline_ids(),
{
    let mut r: Vec<Command> = Vec::new();
    r.push(baseline_command("gmVfs.reloadWorkspace", "Reload", None, Some("$(refresh)")));
    r.push(baseline_command("gmVfs.createScript", "New Script", Some("Create"), Some("$(new-file)")));
    r.push(baseline_command("gmVfs.createObject", "New Object", Some("Create"), Some("$(symbol-constructor)")));
    r.push(baseline_command("gmVfs.createFolder", "New Folder", Some("Create"), Some("$(new-folder)")));
    r.push(baseline_command("gmVfs.deleteFolder", "Delete", Some("Delete"), None));
    r.push(baseline_command("gmVfs.deleteResource", "Delete", Some("Delete"), None));
    r.push(baseline_command("gmVfs.renameResource", "Rename", Some("Delete"), None));
    r.push(baseline_command("gmVfs.renameFolder", "Rename", Some("Delete"), None));
    r.push(baseline_command("gmVfs.deleteEvent", "Delete", Some("Delete"), None));
    proof {
        assert(ids_of(r@) =~= baseline_ids());
    }
    r
}

} // verus!
