use vstd::prelude::*;
use vstd::string::StringExecFns;
use crate::command::{
    baseline_entry, found_commands, found_events, views, PROBE_LIMIT, baseline_ids, baseline_len, default_commands, ids_of, is_baseline,
    sorted_by_event, synthesize, Command,
};
use crate::event::event_le;
use crate::event::{DrawKind, EventKind, EventStage, OtherKind};
use crate::menus::{
    declarations_match, item_when, submenu_id_of, submenus_linked, CommandContext, CommandContextView, ContextView, MenuKey,
    MenuKeyView, Menus, MenusView, SubMenuContextView, SubMenuView,
};
use crate::names::group_token_of;

verus! {

/// The closed set of event categories that the menus are built from.
#[derive(Debug, Clone, Copy, PartialEq, Eq)]
pub enum Category {
    Create,
    Destroy,
    CleanUp,
    Step,
    Alarm,
    Draw,
    Other,
}

/// The category named `s`, if there is one.
pub open spec fn category_named(s: Seq<char>) -> Option<Category> {
    if s == "Create"@ {
        Some(Category::Create)
    } else if s == "Destroy"@ {
        Some(Category::Destroy)
    } else if s == "CleanUp"@ {
        Some(Category::CleanUp)
    } else if s == "Step"@ {
        Some(Category::Step)
    } else if s == "Alarm"@ {
        Some(Category::Alarm)
    } else if s == "Draw"@ {
        Some(Category::Draw)
    } else if s == "Other"@ {
        Some(Category::Other)
    } else {
        None
    }
}

pub open spec fn category_name(c: Category) -> Seq<char> {
    match c {
        Category::Create => "Create"@,
        Category::Destroy => "Destroy"@,
        Category::CleanUp => "CleanUp"@,
        Category::Step => "Step"@,
        Category::Alarm => "Alarm"@,
        Category::Draw => "Draw"@,
        Category::Other => "Other"@,
    }
}

impl Category {
    /// The category called `name`.
    pub fn from_name(name: &str) -> (r: Option<Category>)
        ensures
            r == category_named(name@),
    {
        let s = String::from_str(name);
        if s.eq(&String::from_str("Create")) {
            Some(Category::Create)
        } else if s.eq(&String::from_str("Destroy")) {
            Some(Category::Destroy)
        } else if s.eq(&String::from_str("CleanUp")) {
            Some(Category::CleanUp)
        } else if s.eq(&String::from_str("Step")) {
            Some(Category::Step)
        } else if s.eq(&String::from_str("Alarm")) {
            Some(Category::Alarm)
        } else if s.eq(&String::from_str("Draw")) {
            Some(Category::Draw)
        } else if s.eq(&String::from_str("Other")) {
            Some(Category::Other)
        } else {
            None
        }
    }

    /// The category's name.
    pub fn name(&self) -> (r: String)
        ensures
            r@ == category_name(*self),
    {
        match self {
            Category::Create => String::from_str("Create"),
            Category::Destroy => String::from_str("Destroy"),
            Category::CleanUp => String::from_str("CleanUp"),
            Category::Step => String::from_str("Step"),
            Category::Alarm => String::from_str("Alarm"),
            Category::Draw => String::from_str("Draw"),
            Category::Other => String::from_str("Other"),
        }
    }
}

/// The names of all categories, in the order in which they are enumerated.
pub open spec fn category_list() -> Seq<Category> {
    seq![
        Category::Create,
        Category::Destroy,
        Category::CleanUp,
        Category::Step,
        Category::Alarm,
        Category::Draw,
        Category::Other,
    ]
}

/// The visual group of a draw event in the draw submenu.
pub open spec fn draw_group(k: DrawKind) -> Seq<char> {
    match k {
        DrawKind::Draw(s) | DrawKind::DrawGui(s) => match s {
            EventStage::Main => "drawmain"@,
            _ => "drawpost"@,
        },
        DrawKind::PreDraw | DrawKind::PostDraw => "prepost"@,
        DrawKind::WindowResize => "window"@,
    }
}

fn draw_group_name(k: DrawKind) -> (r: &'static str)
    ensures
        r@ == draw_group(k),
{
    match k {
        DrawKind::Draw(s) | DrawKind::DrawGui(s) => match s {
            EventStage::Main => "drawmain",
            _ => "drawpost",
        },
        DrawKind::PreDraw | DrawKind::PostDraw => "prepost",
        DrawKind::WindowResize => "window",
    }
}

/// Where an event of the "other" category goes.
#[derive(Debug, Clone, Copy, PartialEq, Eq)]
pub enum OtherBucket {
    /// The "Other" submenu itself.
    Main,
    /// The "Views" submenu: outside-view and intersect-view events.
    Views,
    /// The "User Events" submenu.
    UserEvents,
    /// The "Asynchronous" submenu.
    Async,
}

/// The bucket of an event of the "other" category; `None` for any other event.
pub open spec fn other_bucket(k: EventKind) -> Option<OtherBucket> {
    match k {
        EventKind::Other(o) => match o {
            OtherKind::OutsideView(_) | OtherKind::IntersectView(_) => Some(OtherBucket::Views),
            OtherKind::UserEvent(_) => Some(OtherBucket::UserEvents),
            _ => Some(OtherBucket::Main),
        },
        EventKind::Async(_) => Some(OtherBucket::Async),
        _ => None,
    }
}

fn other_bucket_of(k: EventKind) -> (r: Option<OtherBucket>)
    ensures
        r == other_bucket(k),
{
    match k {
        EventKind::Other(o) => match o {
            OtherKind::OutsideView(_) | OtherKind::IntersectView(_) => Some(OtherBucket::Views),
            OtherKind::UserEvent(_) => Some(OtherBucket::UserEvents),
            _ => Some(OtherBucket::Main),
        },
        EventKind::Async(_) => Some(OtherBucket::Async),
        _ => None,
    }
}

/// How many of the first `i` commands fall in bucket `b`.
pub open spec fn bucket_count(s: Seq<Command>, i: int, b: OtherBucket) -> nat
    decreases i,
{
    if i <= 0 {
        0
    } else if other_bucket(s[i - 1]@.event) == Some(b) {
        bucket_count(s, i - 1, b) + 1
    } else {
        bucket_count(s, i - 1, b)
    }
}

/// The order index given to the `pos`-th command of bucket `b`: the main
/// bucket leaves index 10 free for the baseline entry that sits there.
pub open spec fn bucket_slot(b: OtherBucket, pos: nat) -> nat {
    if b == OtherBucket::Main && pos >= 10 {
        pos + 1
    } else {
        pos
    }
}

/// The placement of command `command` in `group` at index `idx`.
pub open spec fn placement(command: Seq<char>, group: Seq<char>, idx: nat) -> CommandContextView {
    CommandContextView { group: group_token_of(group, idx), command, when: item_when() }
}

/// The placement of the `i`-th command of a flat submenu.
pub open spec fn fanout_placement(s: Seq<Command>, group: Seq<char>, i: int) -> CommandContextView {
    placement(s[i]@.command, group, i as nat)
}

/// The placement of the `i`-th command of the draw submenu.
pub open spec fn draw_placement(s: Seq<Command>, i: int) -> CommandContextView {
    let k = s[i]@.event;
    placement(s[i]@.command, draw_group(k->Draw_0), i as nat)
}

/// The placement of the `i`-th command of the "other" category, in its bucket.
pub open spec fn other_placement(s: Seq<Command>, i: int) -> CommandContextView {
    let b = other_bucket(s[i]@.event)->Some_0;
    placement(s[i]@.command, "create"@, bucket_slot(b, bucket_count(s, i, b)))
}

pub open spec fn all_draw(s: Seq<Command>) -> bool {
    forall|i: int| 0 <= i < s.len() ==> #[trigger] s[i]@.event is Draw
}

pub open spec fn all_other(s: Seq<Command>) -> bool {
    forall|i: int| 0 <= i < s.len() ==> #[trigger] other_bucket(s[i]@.event) is Some
}

/// Whether the commands given for the category named `name` can be placed.
pub open spec fn entry_valid(name: Seq<char>, s: Seq<Command>) -> bool {
    match category_named(name) {
        None => false,
        Some(c) => match c {
            Category::Create | Category::Destroy | Category::CleanUp => s.len() == 1,
            Category::Step | Category::Alarm => true,
            Category::Draw => all_draw(s),
            Category::Other => all_other(s),
        },
    }
}

/// The placements of a flat submenu, one per command, indexed by position.
pub fn fanout_placements(cmds: &Vec<Command>, group: &str) -> (r: Vec<CommandContext>)
    ensures
        r@.len() == cmds@.len(),
        forall|i: int| 0 <= i < r@.len() ==> #[trigger] r@[i]@ == fanout_placement(cmds@, group@, i),
{
    let mut r: Vec<CommandContext> = Vec::new();
    let mut i: usize = 0;
    while i < cmds.len()
        invariant
            i <= cmds@.len(),
            r@.len() == i,
            forall|j: int| 0 <= j < i ==> #[trigger] r@[j]@ == fanout_placement(cmds@, group@, j),
        decreases cmds@.len() - i,
    {
        r.push(CommandContext::new(cmds[i].id().as_str(), group, i));
        i = i + 1;
    }
    r
}

/// The placements of the draw submenu: each command in the group of its
/// draw stage, indexed by position.
pub fn draw_placements(cmds: &Vec<Command>) -> (r: Vec<CommandContext>)
    requires
        all_draw(cmds@),
    ensures
        r@.len() == cmds@.len(),
        forall|i: int| 0 <= i < r@.len() ==> #[trigger] r@[i]@ == draw_placement(cmds@, i),
{
    let mut r: Vec<CommandContext> = Vec::new();
    let mut i: usize = 0;
    while i < cmds.len()
        invariant
            all_draw(cmds@),
            i <= cmds@.len(),
            r@.len() == i,
            forall|j: int| 0 <= j < i ==> #[trigger] r@[j]@ == draw_placement(cmds@, j),
        decreases cmds@.len() - i,
    {
        assert(cmds@[i as int]@.event is Draw);
        let k = match cmds[i].event_kind() {
            EventKind::Draw(k) => k,
            _ => DrawKind::WindowResize,
        };
        r.push(CommandContext::new(cmds[i].id().as_str(), draw_group_name(k), i));
        i = i + 1;
    }
    r
}

/// The placements of the "other" category: each command with its bucket,
/// indexed by its position within that bucket.
pub fn other_placements(cmds: &Vec<Command>) -> (r: Vec<(OtherBucket, CommandContext)>)
    requires
        all_other(cmds@),
    ensures
        r@.len() == cmds@.len(),
        forall|i: int| 0 <= i < r@.len() ==> (#[trigger] r@[i]).0 == other_bucket(cmds@[i]@.event)->Some_0,
        forall|i: int| 0 <= i < r@.len() ==> (#[trigger] r@[i]).1@ == other_placement(cmds@, i),
{
    let mut r: Vec<(OtherBucket, CommandContext)> = Vec::new();
    let mut main_n: usize = 0;
    let mut views_c: usize = 0;
    let mut user_c: usize = 0;
    let mut async_c: usize = 0;
    let mut i: usize = 0;
    while i < cmds.len()
        invariant
            all_other(cmds@),
            i <= cmds@.len(),
            r@.len() == i,
            main_n as nat == bucket_count(cmds@, i as int, OtherBucket::Main),
            views_c as nat == bucket_count(cmds@, i as int, OtherBucket::Views),
            user_c as nat == bucket_count(cmds@, i as int, OtherBucket::UserEvents),
            async_c as nat == bucket_count(cmds@, i as int, OtherBucket::Async),
            main_n <= i,
            views_c <= i,
            user_c <= i,
            async_c <= i,
            forall|j: int| 0 <= j < i ==> (#[trigger] r@[j]).0 == other_bucket(cmds@[j]@.event)->Some_0,
            forall|j: int| 0 <= j < i ==> (#[trigger] r@[j]).1@ == other_placement(cmds@, j),
        decreases cmds@.len() - i,
    {
        assert(other_bucket(cmds@[i as int]@.event) is Some);
        let b = match other_bucket_of(cmds[i].event_kind()) {
            Some(b) => b,
            None => OtherBucket::Main,
        };
        let name = cmds[i].id().as_str();
        let idx = match b {
            OtherBucket::Main => if main_n >= 10 { main_n + 1 } else { main_n },
            OtherBucket::Views => views_c,
            OtherBucket::UserEvents => user_c,
            OtherBucket::Async => async_c,
        };
        r.push((b, CommandContext::new(name, "create", idx)));
        match b {
            OtherBucket::Main => {
                main_n = main_n + 1;
            },
            OtherBucket::Views => {
                views_c = views_c + 1;
            },
            OtherBucket::UserEvents => {
                user_c = user_c + 1;
            },
            OtherBucket::Async => {
                async_c = async_c + 1;
            },
        }
        i = i + 1;
    }
    r
}

/// The set of placements held by a sequence of them.
pub open spec fn placement_set(s: Seq<CommandContext>) -> Set<ContextView> {
    Set::new(|e: ContextView| exists|i: int| 0 <= i < s.len() && e == ContextView::Command(#[trigger] s[i]@))
}

/// Inserts every placement of `ctxs` into the location `key`.
fn add_placements(menus: &mut Menus, key: &MenuKey, ctxs: Vec<CommandContext>)
    requires
        old(menus).wf(),
        old(menus)@.locations.dom().contains(key@),
    ensures
        final(menus).wf(),
        final(menus)@.locations == old(menus)@.locations.insert(
            key@,
            old(menus)@.locations[key@].union(placement_set(ctxs@)),
        ),
        final(menus)@.submenus == old(menus)@.submenus,
        submenus_linked(old(menus)@) ==> submenus_linked(final(menus)@),
{
    let ghost start = menus@;
    let ghost all = ctxs@;
    let mut ctxs = ctxs;
    let ghost mut done: Seq<CommandContext> = Seq::empty();
    proof {
        assert(placement_set(done) =~= Set::<ContextView>::empty());
        assert(start.locations[key@].union(placement_set(done)) =~= start.locations[key@]);
        assert(start.locations.insert(key@, start.locations[key@]) =~= start.locations);
        assert(all =~= done + ctxs@);
    }
    while ctxs.len() > 0
        invariant
            menus.wf(),
            menus@.locations.dom().contains(key@),
            start.locations.dom().contains(key@),
            done + ctxs@ == all,
            menus@.locations == start.locations.insert(
                key@,
                start.locations[key@].union(placement_set(done)),
            ),
            menus@.submenus == start.submenus,
            submenus_linked(start) ==> submenus_linked(menus@),
        decreases ctxs@.len(),
    {
        let ghost before = ctxs@;
        let c = ctxs.remove(0);
        let ghost cval = c;
        let ghost cv = c@;
        let ghost done_before = done;
        menus.add_context_submenu(key, c);
        proof {
            assert(before =~= seq![c] + ctxs@);
        }
        proof {
            done = done.push(cval);
            assert(done + ctxs@ =~= done_before + before);
            assert(placement_set(done) =~= placement_set(done_before).insert(ContextView::Command(cv))) by {
                assert(done[done_before.len() as int] == cval);
                assert forall|e: ContextView| placement_set(done_before).contains(e) implies placement_set(done).contains(e) by {
                    let i = choose|i: int| 0 <= i < done_before.len() && e == ContextView::Command(#[trigger] done_before[i]@);
                    assert(done[i] == done_before[i]);
                }
                assert forall|e: ContextView| placement_set(done).contains(e) implies
                    placement_set(done_before).insert(ContextView::Command(cv)).contains(e) by {
                    let i = choose|i: int| 0 <= i < done.len() && e == ContextView::Command(#[trigger] done[i]@);
                    if i < done_before.len() {
                        assert(done[i] == done_before[i]);
                    }
                }
            }
            assert(start.locations[key@].union(placement_set(done_before)).insert(ContextView::Command(cv))
                =~= start.locations[key@].union(placement_set(done)));
            assert(menus@.locations =~= start.locations.insert(
                key@,
                start.locations[key@].union(placement_set(done)),
            ));
        }
    }
    proof {
        assert(done =~= all);
    }
}

/// All commands of the entries, entry after entry.
pub open spec fn flatten(s: Seq<(String, Vec<Command>)>) -> Seq<Command>
    decreases s.len(),
{
    if s.len() == 0 {
        Seq::empty()
    } else {
        s[0].1@ + flatten(s.drop_first())
    }
}

/// Whether every entry names a category and holds commands that it can place.
pub open spec fn all_valid(s: Seq<(String, Vec<Command>)>) -> bool {
    forall|i: int| 0 <= i < s.len() ==> entry_valid(#[trigger] s[i].0@, s[i].1@)
}

/// Whether no category name is given twice.
pub open spec fn names_distinct(s: Seq<(String, Vec<Command>)>) -> bool {
    forall|i: int, k: int| 0 <= i < k < s.len() ==> #[trigger] s[i].0@ != #[trigger] s[k].0@
}

/// Whether no identifier occurs twice.
pub open spec fn unique_ids(s: Seq<Seq<char>>) -> bool {
    forall|i: int, k: int| 0 <= i < k < s.len() ==> #[trigger] s[i] != #[trigger] s[k]
}

/// The identifiers of the manifest: the baseline's, then those of every entry.
pub open spec fn all_ids(input: Seq<(String, Vec<Command>)>) -> Seq<Seq<char>> {
    baseline_ids() + ids_of(flatten(input))
}

/// The link that a submenu declared for `label` at index `idx` leaves in its parent.
pub open spec fn link_view(label: Seq<char>, idx: nat) -> ContextView {
    ContextView::SubMenu(SubMenuContextView {
        group: group_token_of("create"@, idx),
        submenu: submenu_id_of(label),
        when: item_when(),
    })
}

/// The location of the submenu declared for `label`.
pub open spec fn submenu_key(label: Seq<char>) -> MenuKeyView {
    MenuKeyView::Other(submenu_id_of(label))
}

/// `m` after declaring the submenu `label` under `parent` at index `idx`: the
/// link is added to `parent`; a first declaration of the identifier also
/// records it and creates its empty location, a repeated one changes nothing
/// else.
pub open spec fn declare(m: MenusView, parent: MenuKeyView, label: Seq<char>, idx: nat) -> MenusView {
    let linked = m.locations.insert(parent, m.locations[parent].insert(link_view(label, idx)));
    if m.locations.dom().contains(submenu_key(label)) {
        MenusView { locations: linked, submenus: m.submenus }
    } else {
        MenusView {
            locations: linked.insert(submenu_key(label), Set::empty()),
            submenus: m.submenus.push(SubMenuView { id: submenu_id_of(label), label, icon: None }),
        }
    }
}

/// `m` after adding the entries `s` to the location `key`.
pub open spec fn place_all(m: MenusView, key: MenuKeyView, s: Set<ContextView>) -> MenusView {
    MenusView { locations: m.locations.insert(key, m.locations[key].union(s)), submenus: m.submenus }
}

/// `m` after adding the entry `e` to the location `key`.
pub open spec fn place_one(m: MenusView, key: MenuKeyView, e: ContextView) -> MenusView {
    MenusView { locations: m.locations.insert(key, m.locations[key].insert(e)), submenus: m.submenus }
}

/// The placements of a flat submenu.
pub open spec fn fanout_set(s: Seq<Command>, group: Seq<char>) -> Set<ContextView> {
    Set::new(|e: ContextView| exists|i: int| 0 <= i < s.len() && e == ContextView::Command(#[trigger] fanout_placement(s, group, i)))
}

/// The placements of the draw submenu.
pub open spec fn draw_set(s: Seq<Command>) -> Set<ContextView> {
    Set::new(|e: ContextView| exists|i: int| 0 <= i < s.len() && e == ContextView::Command(#[trigger] draw_placement(s, i)))
}

/// The submenu label of each bucket of the "other" category.
pub open spec fn bucket_label(b: OtherBucket) -> Seq<char> {
    match b {
        OtherBucket::Main => "Other"@,
        OtherBucket::Views => "Views"@,
        OtherBucket::UserEvents => "User Events"@,
        OtherBucket::Async => "Asynchronous"@,
    }
}

/// `m` after placing the first `n` commands of the "other" category, each in
/// the submenu of its bucket.
pub open spec fn place_others(m: MenusView, s: Seq<Command>, n: int) -> MenusView
    decreases n,
{
    if n <= 0 {
        m
    } else {
        let b = other_bucket(s[n - 1]@.event)->Some_0;
        place_one(
            place_others(m, s, n - 1),
            submenu_key(bucket_label(b)),
            ContextView::Command(other_placement(s, n - 1)),
        )
    }
}

/// The order index of a category that holds a single event.
pub open spec fn singleton_index(c: Category) -> nat {
    match c {
        Category::Create => 0,
        Category::Destroy => 1,
        _ => 2,
    }
}

/// `m` after placing the commands `s` of category `c`.
pub open spec fn apply_entry(m: MenusView, c: Category, s: Seq<Command>) -> MenusView {
    match c {
        Category::Create | Category::Destroy | Category::CleanUp => if s.len() == 0 {
            m
        } else {
            place_one(
                m,
                MenuKeyView::Context,
                ContextView::Command(placement(s[0]@.command, "create"@, singleton_index(c))),
            )
        },
        Category::Step => place_all(declare(m, MenuKeyView::Context, "Step"@, 3), submenu_key("Step"@), fanout_set(s, "create"@)),
        Category::Alarm => place_all(declare(m, MenuKeyView::Context, "Alarm"@, 4), submenu_key("Alarm"@), fanout_set(s, "create"@)),
        Category::Draw => place_all(declare(m, MenuKeyView::Context, "Draw"@, 5), submenu_key("Draw"@), draw_set(s)),
        Category::Other => {
            let m1 = declare(m, MenuKeyView::Context, "Other"@, 5);
            let m2 = declare(m1, MenuKeyView::Context, "Asynchronous"@, 6);
            let m3 = declare(m2, submenu_key("Other"@), "Views"@, 2);
            let m4 = declare(m3, submenu_key("Other"@), "User Events"@, 10);
            place_others(m4, s, s.len() as int)
        },
    }
}

/// `m` after placing every entry of `s`, entry after entry.
pub open spec fn classify(m: MenusView, s: Seq<(String, Vec<Command>)>) -> MenusView
    decreases s.len(),
{
    if s.len() == 0 {
        m
    } else {
        match category_named(s[0].0@) {
            Some(c) => classify(apply_entry(m, c, s[0].1@), s.drop_first()),
            None => m,
        }
    }
}

/// Why a manifest could not be built.
#[derive(Debug, Clone, PartialEq, Eq)]
pub enum ContributesError {
    /// A list was given under a name that is no category.
    UnknownCategory(String),
    /// A category that holds one event was given another number of commands.
    WrongCount(Category, usize),
    /// A command's event does not belong in its category's menus.
    UnclassifiedEvent(Category, String),
    /// Two commands share this identifier.
    DuplicateCommand(String),
    /// A category was given more than one list.
    RepeatedCategory(String),
}

fn first_repeated_name(s: &Vec<(String, Vec<Command>)>) -> (r: Option<usize>)
    ensures
        r is None <==> names_distinct(s@),
        r matches Some(j) ==> j < s@.len() && exists|k: int|
            0 <= k < s@.len() && k != j && #[trigger] s@[k].0@ == s@[j as int].0@,
{
    let mut i: usize = 0;
    while i < s.len()
        invariant
            i <= s@.len(),
            forall|a: int, b: int| 0 <= a < i && a < b < s@.len() ==> #[trigger] s@[a].0@ != #[trigger] s@[b].0@,
        decreases s@.len() - i,
    {
        let mut k: usize = i + 1;
        while k < s.len()
            invariant
                i < s@.len(),
                i + 1 <= k <= s@.len(),
                forall|b: int| i < b < k ==> s@[i as int].0@ != #[trigger] s@[b].0@,
            decreases s@.len() - k,
        {
            if s[i].0.eq(&s[k].0) {
                return Some(i);
            }
            k = k + 1;
        }
        i = i + 1;
    }
    None
}

fn first_duplicate(s: &Vec<Command>) -> (r: Option<usize>)
    ensures
        r is None <==> unique_ids(ids_of(s@)),
        r matches Some(j) ==> j < s@.len() && exists|k: int|
            0 <= k < s@.len() && k != j && #[trigger] s@[k]@.command == s@[j as int]@.command,
{
    let mut i: usize = 0;
    while i < s.len()
        invariant
            i <= s@.len(),
            forall|a: int, b: int| 0 <= a < i && a < b < s@.len() ==> #[trigger] s@[a]@.command != #[trigger] s@[b]@.command,
        decreases s@.len() - i,
    {
        let mut k: usize = i + 1;
        while k < s.len()
            invariant
                i < s@.len(),
                i + 1 <= k <= s@.len(),
                forall|b: int| i < b < k ==> s@[i as int]@.command != #[trigger] s@[b]@.command,
            decreases s@.len() - k,
        {
            if s[i].id().eq(s[k].id()) {
                proof {
                    assert(ids_of(s@)[i as int] == ids_of(s@)[k as int]);
                }
                return Some(i);
            }
            k = k + 1;
        }
        i = i + 1;
    }
    None
}

fn first_non_draw(s: &Vec<Command>) -> (r: Option<usize>)
    ensures
        r is None <==> all_draw(s@),
        r matches Some(j) ==> j < s@.len() && !(s@[j as int]@.event is Draw),
{
    let mut i: usize = 0;
    while i < s.len()
        invariant
            i <= s@.len(),
            forall|j: int| 0 <= j < i ==> #[trigger] s@[j]@.event is Draw,
        decreases s@.len() - i,
    {
        match s[i].event_kind() {
            EventKind::Draw(_) => {},
            _ => {
                return Some(i);
            },
        }
        i = i + 1;
    }
    None
}

fn first_unbucketed(s: &Vec<Command>) -> (r: Option<usize>)
    ensures
        r is None <==> all_other(s@),
        r matches Some(j) ==> j < s@.len() && other_bucket(s@[j as int]@.event) is None,
{
    let mut i: usize = 0;
    while i < s.len()
        invariant
            i <= s@.len(),
            forall|j: int| 0 <= j < i ==> #[trigger] other_bucket(s@[j]@.event) is Some,
        decreases s@.len() - i,
    {
        if other_bucket_of(s[i].event_kind()).is_none() {
            return Some(i);
        }
        i = i + 1;
    }
    None
}

/// The generated part of the manifest: all commands and the menu tree.
#[derive(Debug)]
pub struct Contributes {
    pub commands: Vec<Command>,
    pub menus: Menus,
}

impl Contributes {
    /// Places the commands of every category in `menus`, whose fixed
    /// locations hold the baseline entries, and gathers the baseline commands
    /// followed by all given commands.
    pub fn new(input: Vec<(String, Vec<Command>)>, menus: Menus) -> (r: Result<Contributes, ContributesError>)
        requires
            menus.wf(),
            menus@.locations.dom().contains(MenuKeyView::Context),
        ensures
            r is Ok <==> names_distinct(input@) && all_valid(input@) && unique_ids(all_ids(input@)),
            r matches Ok(c) ==> {
                &&& c.commands@.len() == baseline_len() + flatten(input@).len()
                &&& forall|i: int| 0 <= i < baseline_len() ==> is_baseline(#[trigger] c.commands@[i]@, baseline_entry(i))
                &&& c.commands@.subrange(baseline_len() as int, c.commands@.len() as int) == flatten(input@)
                &&& unique_ids(ids_of(c.commands@))
                &&& c.menus@ == classify(menus@, input@)
                &&& declarations_match(c.menus@)
                &&& c.menus.wf()
                &&& submenus_linked(menus@) ==> submenus_linked(c.menus@)
            },
            r matches Err(ContributesError::RepeatedCategory(n)) ==> exists|i: int, k: int|
                0 <= i < k < input@.len() && #[trigger] input@[i].0@ == n@ && #[trigger] input@[k].0@ == n@,
            r matches Err(ContributesError::UnknownCategory(n)) ==> exists|i: int|
                0 <= i < input@.len() && #[trigger] input@[i].0@ == n@ && category_named(n@) is None,
            r matches Err(ContributesError::WrongCount(c, n)) ==> exists|i: int|
                0 <= i < input@.len() && category_named(#[trigger] input@[i].0@) == Some(c)
                && input@[i].1@.len() == n && n != 1
                && (c == Category::Create || c == Category::Destroy || c == Category::CleanUp),
            r matches Err(ContributesError::UnclassifiedEvent(c, id)) ==> exists|i: int, j: int|
                0 <= i < input@.len() && category_named(#[trigger] input@[i].0@) == Some(c)
                && 0 <= j < input@[i].1@.len() && #[trigger] input@[i].1@[j]@.command == id@
                && ((c == Category::Draw && !(input@[i].1@[j]@.event is Draw))
                    || (c == Category::Other && other_bucket(input@[i].1@[j]@.event) is None)),
            r matches Err(ContributesError::DuplicateCommand(id)) ==> all_valid(input@) && exists|i: int, k: int|
                0 <= i < k < all_ids(input@).len() && #[trigger] all_ids(input@)[i] == id@
                && #[trigger] all_ids(input@)[k] == id@,
    {
        match first_repeated_name(&input) {
            Some(j) => {
                let name = input[j].0.clone();
                proof {
                    let k = choose|k: int| 0 <= k < input@.len() && k != j && #[trigger] input@[k].0@ == input@[j as int].0@;
                    assert(input@[k].0@ == name@ && input@[j as int].0@ == name@);
                }
                return Err(ContributesError::RepeatedCategory(name));
            },
            None => {},
        }
        let mut commands = default_commands();
        let ghost base = commands@;
        let mut menus = menus;
        let ghost start = menus@;
        let ghost orig = input@;
        let mut pending = input;
        proof {
            assert(orig.subrange(0, orig.len() as int) =~= orig);
            assert(Seq::<Command>::empty() + flatten(orig) =~= flatten(orig));
        }
        while pending.len() > 0
            invariant
                menus.wf(),
                menus@.locations.dom().contains(MenuKeyView::Context),
                submenus_linked(start) ==> submenus_linked(menus@),
                orig == input@,
                classify(menus@, pending@) == classify(start, orig),
                base.len() == baseline_len(),
                forall|i: int| 0 <= i < baseline_len() ==> is_baseline(#[trigger] base[i]@, baseline_entry(i)),
                ids_of(base) == baseline_ids(),
                commands@ + flatten(pending@) == base + flatten(orig),
                pending@.len() <= orig.len(),
                pending@ == orig.subrange(orig.len() - pending@.len(), orig.len() as int),
                forall|k: int| 0 <= k < orig.len() - pending@.len() ==> entry_valid(#[trigger] orig[k].0@, orig[k].1@),
            decreases pending@.len(),
        {
            let ghost pos = orig.len() - pending@.len();
            let ghost rest = pending@;
            let (name, mut cmds) = pending.remove(0);
            proof {
                assert(orig[pos] == rest[0]);
                assert(pending@ =~= orig.subrange(orig.len() - pending@.len(), orig.len() as int));
                assert(rest.drop_first() =~= pending@);
            }
            let ghost cs = cmds@;
            let ghost before_menus = menus@;
            proof {
                assert(orig[pos].0@ == name@);
                assert(orig[pos].1@ == cs);
            }
            let category = match Category::from_name(name.as_str()) {
                Some(c) => c,
                None => {
                    proof {
                        assert(pending@.len() < orig.len());
                        assert(!entry_valid(orig[pos].0@, orig[pos].1@));
                        assert(orig[pos].0@ == name@);
                    }
                    return Err(ContributesError::UnknownCategory(name));
                },
            };
            match category {
                Category::Create | Category::Destroy | Category::CleanUp => {
                    if cmds.len() != 1 {
                        proof {
                            assert(!entry_valid(orig[pos].0@, orig[pos].1@));
                            assert(category_named(orig[pos].0@) == Some(category));
                        }
                        return Err(ContributesError::WrongCount(category, cmds.len()));
                    }
                    let idx: usize = match category {
                        Category::Create => 0,
                        Category::Destroy => 1,
                        _ => 2,
                    };
                    let cc = CommandContext::new(cmds[0].id().as_str(), "create", idx);
                    menus.add_context_toplevel(cc);
                    proof {
                        assert(menus@ == apply_entry(before_menus, category, cs));
                    }
                },
                Category::Step | Category::Alarm => {
                    let key = match category {
                        Category::Step => menus.add_submenu_toplevel("Step", 3, None),
                        _ => menus.add_submenu_toplevel("Alarm", 4, None),
                    };
                    let ctxs = fanout_placements(&cmds, "create");
                    proof {
                        assert(placement_set(ctxs@) =~= fanout_set(cs, "create"@)) by {
                            assert forall|e: ContextView| fanout_set(cs, "create"@).contains(e) implies placement_set(ctxs@).contains(e) by {
                                let i = choose|i: int| 0 <= i < cs.len() && e == ContextView::Command(#[trigger] fanout_placement(cs, "create"@, i));
                                assert(ctxs@[i]@ == fanout_placement(cs, "create"@, i));
                            }
                        }
                    }
                    add_placements(&mut menus, &key, ctxs);
                    proof {
                        assert(menus@ == apply_entry(before_menus, category, cs));
                    }
                },
                Category::Draw => {
                    match first_non_draw(&cmds) {
                        Some(j) => {
                            proof {
                                assert(!entry_valid(orig[pos].0@, orig[pos].1@));
                                assert(category_named(orig[pos].0@) == Some(category));
                                assert(orig[pos].1@[j as int] == cmds@[j as int]);
                            }
                            return Err(ContributesError::UnclassifiedEvent(category, cmds[j].id().clone()));
                        },
                        None => {},
                    }
                    let key = menus.add_submenu_toplevel("Draw", 5, None);
                    let ctxs = draw_placements(&cmds);
                    proof {
                        assert(placement_set(ctxs@) =~= draw_set(cs)) by {
                            assert forall|e: ContextView| draw_set(cs).contains(e) implies placement_set(ctxs@).contains(e) by {
                                let i = choose|i: int| 0 <= i < cs.len() && e == ContextView::Command(#[trigger] draw_placement(cs, i));
                                assert(ctxs@[i]@ == draw_placement(cs, i));
                            }
                        }
                    }
                    add_placements(&mut menus, &key, ctxs);
                    proof {
                        assert(menus@ == apply_entry(before_menus, category, cs));
                    }
                },
                Category::Other => {
                    match first_unbucketed(&cmds) {
                        Some(j) => {
                            proof {
                                assert(!entry_valid(orig[pos].0@, orig[pos].1@));
                                assert(category_named(orig[pos].0@) == Some(category));
                                assert(orig[pos].1@[j as int] == cmds@[j as int]);
                            }
                            return Err(ContributesError::UnclassifiedEvent(category, cmds[j].id().clone()));
                        },
                        None => {},
                    }
                    let other_id = menus.add_submenu_toplevel("Other", 5, None);
                    let async_id = menus.add_submenu_toplevel("Asynchronous", 6, None);
                    let views = menus.add_submenu_submenu(&other_id, "Views", 2, None);
                    let user_events = menus.add_submenu_submenu(&other_id, "User Events", 10, None);
                    let placed = other_placements(&cmds);
                    let ghost all_placed = placed@;
                    let ghost m4 = menus@;
                    proof {
                        assert(placed@.subrange(0, placed@.len() as int) =~= placed@);
                        assert(menus@ == place_others(m4, cs, 0));
                    }
                    let mut placed = placed;
                    while placed.len() > 0
                        invariant
                            cs == cmds@,
                            all_other(cs),
                            all_placed.len() == cs.len(),
                            forall|i: int| 0 <= i < all_placed.len() ==> (#[trigger] all_placed[i]).0 == other_bucket(cs[i]@.event)->Some_0,
                            forall|i: int| 0 <= i < all_placed.len() ==> (#[trigger] all_placed[i]).1@ == other_placement(cs, i),
                            placed@.len() <= cs.len(),
                            placed@ == all_placed.subrange(cs.len() - placed@.len(), cs.len() as int),
                            menus@ == place_others(m4, cs, cs.len() - placed@.len()),
                            other_id@ == submenu_key("Other"@),
                            async_id@ == submenu_key("Asynchronous"@),
                            views@ == submenu_key("Views"@),
                            user_events@ == submenu_key("User Events"@),
                            menus.wf(),
                            menus@.locations.dom().contains(MenuKeyView::Context),
                            menus@.locations.dom().contains(other_id@),
                            menus@.locations.dom().contains(async_id@),
                            menus@.locations.dom().contains(views@),
                            menus@.locations.dom().contains(user_events@),
                            submenus_linked(start) ==> submenus_linked(menus@),
                        decreases placed@.len(),
                    {
                        let ghost j = cs.len() - placed@.len();
                        let ghost rest_placed = placed@;
                        let (b, cc) = placed.remove(0);
                        proof {
                            assert(rest_placed[0] == all_placed[j]);
                            assert(placed@ =~= all_placed.subrange(cs.len() - placed@.len(), cs.len() as int));
                        }
                        match b {
                            OtherBucket::Main => menus.add_context_submenu(&other_id, cc),
                            OtherBucket::Views => menus.add_context_submenu(&views, cc),
                            OtherBucket::UserEvents => menus.add_context_submenu(&user_events, cc),
                            OtherBucket::Async => menus.add_context_submenu(&async_id, cc),
                        }
                        proof {
                            assert(menus@ == place_others(m4, cs, j + 1));
                        }
                    }
                    proof {
                        assert(menus@ == apply_entry(before_menus, category, cs));
                    }
                },
            }
            let ghost commands_before = commands@;
            commands.append(&mut cmds);
            proof {
                assert(classify(before_menus, rest) == classify(apply_entry(before_menus, category, cs), pending@));
                assert(entry_valid(orig[pos].0@, orig[pos].1@));
                assert(flatten(rest) == cs + flatten(pending@));
                assert(commands@ + flatten(pending@) =~= commands_before + flatten(rest));
            }
        }
        proof {
            assert(flatten(pending@) =~= Seq::<Command>::empty());
            assert(commands@ =~= base + flatten(orig));
            assert(ids_of(commands@) =~= all_ids(orig));
            assert(commands@.subrange(baseline_len() as int, commands@.len() as int) =~= flatten(orig));
            assert forall|i: int| 0 <= i < baseline_len() implies is_baseline(#[trigger] commands@[i]@, baseline_entry(i)) by {
                assert(commands@[i] == base[i]);
            }
            assert(all_valid(orig));
        }
        match first_duplicate(&commands) {
            Some(j) => {
                let id = commands[j].id().clone();
                proof {
                    let ids = all_ids(orig);
                    let k = choose|k: int| 0 <= k < commands@.len() && k != j && #[trigger] commands@[k]@.command == commands@[j as int]@.command;
                    assert(ids[k] == id@ && ids[j as int] == id@);
                }
                Err(ContributesError::DuplicateCommand(id))
            },
            None => {
                proof {
                    menus.lemma_wf_declarations();
                }
                Ok(Contributes { commands, menus })
            },
        }
    }
}

/// The commands of every category, in the order of `category_list`.
pub fn create_command_lists() -> (r: Vec<(String, Vec<Command>)>)
    ensures
        r@.len() == category_list().len(),
        forall|i: int| 0 <= i < r@.len() ==> (#[trigger] r@[i]).0@ == category_name(category_list()[i]),
        forall|i: int| 0 <= i < r@.len() ==> sorted_by_event((#[trigger] r@[i]).1@),
        forall|i: int| 0 <= i < r@.len() ==> views((#[trigger] r@[i]).1@).to_multiset()
            == found_commands(category_name(category_list()[i])).to_multiset(),
        forall|i: int| 0 <= i < r@.len() ==> (#[trigger] r@[i]).1@.len()
            == found_events(category_name(category_list()[i]), PROBE_LIMIT as nat).len(),
{
    let categories = [
        Category::Create,
        Category::Destroy,
        Category::CleanUp,
        Category::Step,
        Category::Alarm,
        Category::Draw,
        Category::Other,
    ];
    let mut r: Vec<(String, Vec<Command>)> = Vec::new();
    let mut i: usize = 0;
    while i < 7
        invariant
            i <= 7,
            categories@ == category_list(),
            r@.len() == i,
            forall|j: int| 0 <= j < i ==> (#[trigger] r@[j]).0@ == category_name(category_list()[j]),
            forall|j: int| 0 <= j < i ==> sorted_by_event((#[trigger] r@[j]).1@),
            forall|j: int| 0 <= j < i ==> views((#[trigger] r@[j]).1@).to_multiset()
                == found_commands(category_name(category_list()[j])).to_multiset(),
            forall|j: int| 0 <= j < i ==> (#[trigger] r@[j]).1@.len()
                == found_events(category_name(category_list()[j]), PROBE_LIMIT as nat).len(),
        decreases 7 - i,
    {
        let name = categories[i].name();
        let values = synthesize(name.as_str());
        r.push((name, values));
        i = i + 1;
    }
    r
}

/// The order index of the `i`-th command of the "other" category within its bucket.
pub open spec fn other_index(s: Seq<Command>, i: int) -> nat {
    let b = other_bucket(s[i]@.event)->Some_0;
    bucket_slot(b, bucket_count(s, i, b))
}

proof fn lemma_bucket_count_grows(s: Seq<Command>, i: int, k: int, b: OtherBucket)
    requires
        0 <= i < k <= s.len(),
        other_bucket(s[i]@.event) == Some(b),
    ensures
        bucket_count(s, i, b) < bucket_count(s, k, b),
    decreases k - i,
{
    if k > i + 1 {
        lemma_bucket_count_grows(s, i, k - 1, b);
    }
}

/// In a flat submenu the command at a later position carries a larger order
/// index in its group token, and its event comes no earlier in the
/// taxonomy's order.
pub proof fn lemma_fanout_order(cmds: Seq<Command>, group: Seq<char>, i: int, k: int)
    requires
        sorted_by_event(cmds),
        0 <= i < k < cmds.len(),
    ensures
        fanout_placement(cmds, group, i).group == group_token_of(group, i as nat),
        fanout_placement(cmds, group, k).group == group_token_of(group, k as nat),
        i < k,
        event_le(cmds[i]@.event, cmds[k]@.event),
{
}

/// In the draw submenu the command at a later position carries a larger order
/// index, and its event comes no earlier in the taxonomy's order.
pub proof fn lemma_draw_order(cmds: Seq<Command>, i: int, k: int)
    requires
        sorted_by_event(cmds),
        all_draw(cmds),
        0 <= i < k < cmds.len(),
    ensures
        draw_placement(cmds, i).group == group_token_of(draw_group(cmds[i]@.event->Draw_0), i as nat),
        draw_placement(cmds, k).group == group_token_of(draw_group(cmds[k]@.event->Draw_0), k as nat),
        event_le(cmds[i]@.event, cmds[k]@.event),
{
}

/// Within each submenu of the "other" category, a command placed after
/// another carries a strictly larger order index, and its event comes no
/// earlier in the taxonomy's order.
pub proof fn lemma_other_order(cmds: Seq<Command>, i: int, k: int)
    requires
        sorted_by_event(cmds),
        all_other(cmds),
        0 <= i < k < cmds.len(),
        other_bucket(cmds[i]@.event) == other_bucket(cmds[k]@.event),
    ensures
        other_placement(cmds, i).group == group_token_of("create"@, other_index(cmds, i)),
        other_placement(cmds, k).group == group_token_of("create"@, other_index(cmds, k)),
        other_index(cmds, i) < other_index(cmds, k),
        event_le(cmds[i]@.event, cmds[k]@.event),
{
    assert(other_bucket(cmds[i]@.event) is Some);
    let b = other_bucket(cmds[i]@.event)->Some_0;
    lemma_bucket_count_grows(cmds, i, k, b);
}

/// Whether two command sequences look the same, command for command.
pub open spec fn same_views(x: Seq<Command>, y: Seq<Command>) -> bool {
    x.len() == y.len() && forall|j: int| 0 <= j < x.len() ==> #[trigger] x[j]@ == y[j]@
}

/// Whether two inputs look the same, entry for entry.
pub open spec fn same_entries(a: Seq<(String, Vec<Command>)>, b: Seq<(String, Vec<Command>)>) -> bool {
    a.len() == b.len() && forall|i: int| #![trigger a[i]] 0 <= i < a.len() ==> a[i].0@ == b[i].0@ && same_views(a[i].1@, b[i].1@)
}

proof fn lemma_bucket_count_same(x: Seq<Command>, y: Seq<Command>, i: int, b: OtherBucket)
    requires
        same_views(x, y),
        0 <= i <= x.len(),
    ensures
        bucket_count(x, i, b) == bucket_count(y, i, b),
    decreases i,
{
    if i > 0 {
        lemma_bucket_count_same(x, y, i - 1, b);
        assert(x[i - 1]@ == y[i - 1]@);
    }
}

proof fn lemma_place_others_same(m: MenusView, x: Seq<Command>, y: Seq<Command>, n: int)
    requires
        same_views(x, y),
        0 <= n <= x.len(),
    ensures
        place_others(m, x, n) == place_others(m, y, n),
    decreases n,
{
    if n > 0 {
        lemma_place_others_same(m, x, y, n - 1);
        assert(x[n - 1]@ == y[n - 1]@);
        let b = other_bucket(x[n - 1]@.event)->Some_0;
        lemma_bucket_count_same(x, y, n - 1, b);
        assert(other_placement(x, n - 1) == other_placement(y, n - 1));
    }
}

proof fn lemma_apply_entry_same(m: MenusView, c: Category, x: Seq<Command>, y: Seq<Command>)
    requires
        same_views(x, y),
    ensures
        apply_entry(m, c, x) == apply_entry(m, c, y),
        entry_valid(category_name(c), x) == entry_valid(category_name(c), y),
{
    assert forall|i: int| 0 <= i < x.len() implies fanout_placement(x, "create"@, i) == fanout_placement(y, "create"@, i)
        && draw_placement(x, i) == draw_placement(y, i) by {
        assert(x[i]@ == y[i]@);
    }
    assert(fanout_set(x, "create"@) =~= fanout_set(y, "create"@)) by {
        assert forall|e: ContextView| fanout_set(y, "create"@).contains(e) implies fanout_set(x, "create"@).contains(e) by {
            let i = choose|i: int| 0 <= i < y.len() && e == ContextView::Command(#[trigger] fanout_placement(y, "create"@, i));
            assert(fanout_placement(x, "create"@, i) == fanout_placement(y, "create"@, i));
        }
        assert forall|e: ContextView| fanout_set(x, "create"@).contains(e) implies fanout_set(y, "create"@).contains(e) by {
            let i = choose|i: int| 0 <= i < x.len() && e == ContextView::Command(#[trigger] fanout_placement(x, "create"@, i));
            assert(fanout_placement(x, "create"@, i) == fanout_placement(y, "create"@, i));
        }
    }
    assert(draw_set(x) =~= draw_set(y)) by {
        assert forall|e: ContextView| draw_set(y).contains(e) implies draw_set(x).contains(e) by {
            let i = choose|i: int| 0 <= i < y.len() && e == ContextView::Command(#[trigger] draw_placement(y, i));
            assert(draw_placement(x, i) == draw_placement(y, i));
        }
        assert forall|e: ContextView| draw_set(x).contains(e) implies draw_set(y).contains(e) by {
            let i = choose|i: int| 0 <= i < x.len() && e == ContextView::Command(#[trigger] draw_placement(x, i));
            assert(draw_placement(x, i) == draw_placement(y, i));
        }
    }
    if x.len() > 0 {
        assert(x[0]@ == y[0]@);
    }
    let m1 = declare(m, MenuKeyView::Context, "Other"@, 5);
    let m2 = declare(m1, MenuKeyView::Context, "Asynchronous"@, 6);
    let m3 = declare(m2, submenu_key("Other"@), "Views"@, 2);
    let m4 = declare(m3, submenu_key("Other"@), "User Events"@, 10);
    lemma_place_others_same(m4, x, y, x.len() as int);
    assert(all_draw(x) == all_draw(y)) by {
        assert forall|i: int| 0 <= i < x.len() implies x[i]@ == y[i]@ by {}
    }
    assert(all_other(x) == all_other(y)) by {
        assert forall|i: int| 0 <= i < x.len() implies x[i]@ == y[i]@ by {}
    }
}

/// Assembly is reproducible: inputs that look the same, entry for entry and
/// command for command, are accepted alike, place the same menu tree into the
/// same starting tree, and give commands that look the same.
pub proof fn lemma_assembly_reproducible(m: MenusView, a: Seq<(String, Vec<Command>)>, b: Seq<(String, Vec<Command>)>)
    requires
        same_entries(a, b),
    ensures
        classify(m, a) == classify(m, b),
        all_valid(a) == all_valid(b),
        same_views(flatten(a), flatten(b)),
        all_ids(a) == all_ids(b),
    decreases a.len(),
{
    if a.len() > 0 {
        let a1 = a.drop_first();
        let b1 = b.drop_first();
        assert(same_entries(a1, b1)) by {
            assert forall|i: int| #![trigger a1[i]] 0 <= i < a1.len() implies a1[i].0@ == b1[i].0@ && same_views(a1[i].1@, b1[i].1@) by {
                assert(a1[i] == a[i + 1] && b1[i] == b[i + 1]);
                assert(a[i + 1].0@ == b[i + 1].0@ && same_views(a[i + 1].1@, b[i + 1].1@));
            }
        }
        lemma_assembly_reproducible(m, a1, b1);
        assert(a[0].0@ == b[0].0@ && same_views(a[0].1@, b[0].1@));
        match category_named(a[0].0@) {
            Some(c) => {
                lemma_apply_entry_same(m, c, a[0].1@, b[0].1@);
                lemma_assembly_reproducible(apply_entry(m, c, a[0].1@), a1, b1);
                assert(category_name(c) == a[0].0@);
            },
            None => {},
        }
        assert(all_valid(a) == all_valid(b)) by {
            if all_valid(a) {
                assert forall|i: int| 0 <= i < b.len() implies entry_valid(#[trigger] b[i].0@, b[i].1@) by {
                    assert(entry_valid(a[i].0@, a[i].1@));
                    assert(a[i].0@ == b[i].0@ && same_views(a[i].1@, b[i].1@));
                    if let Some(c) = category_named(a[i].0@) {
                        lemma_apply_entry_same(m, c, a[i].1@, b[i].1@);
                        assert(category_name(c) == a[i].0@);
                    }
                }
            }
            if all_valid(b) {
                assert forall|i: int| 0 <= i < a.len() implies entry_valid(#[trigger] a[i].0@, a[i].1@) by {
                    assert(entry_valid(b[i].0@, b[i].1@));
                    assert(a[i].0@ == b[i].0@ && same_views(a[i].1@, b[i].1@));
                    if let Some(c) = category_named(a[i].0@) {
                        lemma_apply_entry_same(m, c, a[i].1@, b[i].1@);
                        assert(category_name(c) == a[i].0@);
                    }
                }
            }
        }
        let fa = flatten(a);
        let fb = flatten(b);
        assert(fa == a[0].1@ + flatten(a1));
        assert(fb == b[0].1@ + flatten(b1));
        assert forall|j: int| 0 <= j < fa.len() implies #[trigger] fa[j]@ == fb[j]@ by {
            if j < a[0].1@.len() {
                assert(a[0].1@[j]@ == b[0].1@[j]@);
            } else {
                assert(flatten(a1)[j - a[0].1@.len()]@ == flatten(b1)[j - a[0].1@.len()]@);
            }
        }
    }
    assert(ids_of(flatten(a)) =~= ids_of(flatten(b))) by {
        assert forall|j: int| 0 <= j < flatten(a).len() implies #[trigger] ids_of(flatten(a))[j] == ids_of(flatten(b))[j] by {
            assert(flatten(a)[j]@ == flatten(b)[j]@);
        }
    }
}

} // verus!
