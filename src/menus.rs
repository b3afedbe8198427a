use vstd::prelude::*;
use vstd::string::StringExecFns;
use crate::names::{group_token, group_token_of, lower_camel, mixed_of};

verus! {

/// The visibility predicate shared by every generated placement.
pub open spec fn item_when() -> Seq<char> {
    "view == gmVfs && viewItem =~ /objectItem/"@
}

fn item_when_string() -> (r: String)
    ensures
        r@ == item_when(),
{
    String::from_str("view == gmVfs && viewItem =~ /objectItem/")
}

/// The identifier of the submenu declared for `label`.
pub open spec fn submenu_id_of(label: Seq<char>) -> Seq<char> {
    "gmVfs."@ + mixed_of(label)
}

/// A place in the menu tree where placements can be inserted.
#[derive(Debug, Clone, PartialEq, Eq)]
pub enum MenuKey {
    Navigation,
    Context,
    Other(String),
}

pub enum MenuKeyView {
    Navigation,
    Context,
    Other(Seq<char>),
}

impl View for MenuKey {
    type V = MenuKeyView;

    open spec fn view(&self) -> MenuKeyView {
        match self {
            MenuKey::Navigation => MenuKeyView::Navigation,
            MenuKey::Context => MenuKeyView::Context,
            MenuKey::Other(s) => MenuKeyView::Other(s@),
        }
    }
}

impl MenuKey {
    /// Whether two keys name the same location.
    pub fn same_as(&self, other: &MenuKey) -> (r: bool)
        ensures
            r == (self@ == other@),
    {
        match self {
            MenuKey::Navigation => matches!(other, MenuKey::Navigation),
            MenuKey::Context => matches!(other, MenuKey::Context),
            MenuKey::Other(a) => match other {
                MenuKey::Other(b) => a.eq(b),
                _ => false,
            },
        }
    }

    /// A copy of the key.
    pub fn duplicate(&self) -> (r: MenuKey)
        ensures
            r@ == self@,
    {
        match self {
            MenuKey::Navigation => MenuKey::Navigation,
            MenuKey::Context => MenuKey::Context,
            MenuKey::Other(s) => MenuKey::Other(s.clone()),
        }
    }

    /// The name under which the location appears in the manifest.
    pub fn name(&self) -> (r: String)
        ensures
            r@ == self@.name(),
    {
        match self {
            MenuKey::Navigation => String::from_str("view/title"),
            MenuKey::Context => String::from_str("view/title/context"),
            MenuKey::Other(s) => s.clone(),
        }
    }
}

impl MenuKeyView {
    pub open spec fn name(self) -> Seq<char> {
        match self {
            MenuKeyView::Navigation => "view/title"@,
            MenuKeyView::Context => "view/title/context"@,
            MenuKeyView::Other(s) => s,
        }
    }
}

/// A command placed in a menu location.
#[derive(Debug, Clone, PartialEq, Eq)]
pub struct CommandContext {
    group: String,
    command: String,
    when: String,
}

pub struct CommandContextView {
    pub group: Seq<char>,
    pub command: Seq<char>,
    pub when: Seq<char>,
}

impl View for CommandContext {
    type V = CommandContextView;

    closed spec fn view(&self) -> CommandContextView {
        CommandContextView { group: self.group@, command: self.command@, when: self.when@ }
    }
}

impl CommandContext {
    /// Places `command_name` in `group` at position `idx`.
    pub fn new(command_name: &str, group: &str, idx: usize) -> (r: CommandContext)
        ensures
            r@.command == command_name@,
            r@.when == item_when(),
            r@.group == group_token_of(group@, idx as nat),
    {
        CommandContext {
            command: String::from_str(command_name),
            when: item_when_string(),
            group: group_token(group, idx),
        }
    }

    /// Builds a placement from its three fields as they stand.
    pub fn from_parts(group: String, command: String, when: String) -> (r: CommandContext)
        ensures
            r@ == (CommandContextView { group: group@, command: command@, when: when@ }),
    {
        CommandContext { group, command, when }
    }

    pub fn group(&self) -> (r: &String)
        ensures
            r@ == self@.group,
    {
        &self.group
    }

    pub fn command(&self) -> (r: &String)
        ensures
            r@ == self@.command,
    {
        &self.command
    }

    pub fn when(&self) -> (r: &String)
        ensures
            r@ == self@.when,
    {
        &self.when
    }
}

/// A link from a menu location to a submenu.
#[derive(Debug, Clone, PartialEq, Eq)]
pub struct SubMenuContext {
    group: String,
    pub submenu: String,
    when: String,
}

pub struct SubMenuContextView {
    pub group: Seq<char>,
    pub submenu: Seq<char>,
    pub when: Seq<char>,
}

impl View for SubMenuContext {
    type V = SubMenuContextView;

    closed spec fn view(&self) -> SubMenuContextView {
        SubMenuContextView { group: self.group@, submenu: self.submenu@, when: self.when@ }
    }
}

impl SubMenuContext {
    /// Links the submenu `gmVfs.<submenu_name>` at position `idx`.
    pub fn new(submenu_name: &str, idx: usize) -> (r: SubMenuContext)
        ensures
            r@.submenu == "gmVfs."@ + submenu_name@,
            r@.when == item_when(),
            r@.group == group_token_of("create"@, idx as nat),
    {
        let mut submenu = String::from_str("gmVfs.");
        submenu.append(submenu_name);
        SubMenuContext { submenu, when: item_when_string(), group: group_token("create", idx) }
    }

    /// Builds a link from its three fields as they stand.
    pub fn from_parts(group: String, submenu: String, when: String) -> (r: SubMenuContext)
        ensures
            r@ == (SubMenuContextView { group: group@, submenu: submenu@, when: when@ }),
    {
        SubMenuContext { group, submenu, when }
    }

    pub fn group(&self) -> (r: &String)
        ensures
            r@ == self@.group,
    {
        &self.group
    }

    pub fn when(&self) -> (r: &String)
        ensures
            r@ == self@.when,
    {
        &self.when
    }
}

/// One entry of a menu location.
#[derive(Debug, Clone, PartialEq, Eq)]
pub enum Context {
    Command(CommandContext),
    SubMenu(SubMenuContext),
}

pub enum ContextView {
    Command(CommandContextView),
    SubMenu(SubMenuContextView),
}

impl View for Context {
    type V = ContextView;

    open spec fn view(&self) -> ContextView {
        match self {
            Context::Command(c) => ContextView::Command(c@),
            Context::SubMenu(s) => ContextView::SubMenu(s@),
        }
    }
}

/// A declared submenu.
#[derive(Debug, Clone, PartialEq, Eq)]
pub struct SubMenu {
    id: String,
    label: String,
    icon: Option<String>,
}

pub struct SubMenuView {
    pub id: Seq<char>,
    pub label: Seq<char>,
    pub icon: Option<Seq<char>>,
}

pub open spec fn opt_view(o: Option<String>) -> Option<Seq<char>> {
    match o {
        Some(s) => Some(s@),
        None => None,
    }
}

impl View for SubMenu {
    type V = SubMenuView;

    closed spec fn view(&self) -> SubMenuView {
        SubMenuView { id: self.id@, label: self.label@, icon: opt_view(self.icon) }
    }
}

impl SubMenu {
    pub fn id(&self) -> (r: &String)
        ensures
            r@ == self@.id,
    {
        &self.id
    }

    pub fn label(&self) -> (r: &String)
        ensures
            r@ == self@.label,
    {
        &self.label
    }

    pub fn icon(&self) -> (r: &Option<String>)
        ensures
            opt_view(*r) == self@.icon,
    {
        &self.icon
    }
}

/// The set of entries held by a sequence of placements.
pub open spec fn entry_set(s: Seq<Context>) -> Set<ContextView>
    decreases s.len(),
{
    if s.len() == 0 {
        Set::empty()
    } else {
        entry_set(s.drop_last()).insert(s.last()@)
    }
}

/// The locations held by a sequence of (key, entries) pairs, later pairs
/// taking precedence.
pub open spec fn location_map(s: Seq<(MenuKey, Vec<Context>)>) -> Map<MenuKeyView, Set<ContextView>>
    decreases s.len(),
{
    if s.len() == 0 {
        Map::empty()
    } else {
        location_map(s.drop_last()).insert(s.last().0@, entry_set(s.last().1@))
    }
}

pub open spec fn keys_unique(s: Seq<(MenuKey, Vec<Context>)>) -> bool {
    forall|i: int, j: int| 0 <= i < j < s.len() ==> s[i].0@ != s[j].0@
}

proof fn lemma_location_map_dom(s: Seq<(MenuKey, Vec<Context>)>, k: MenuKeyView)
    ensures
        location_map(s).dom().contains(k) <==> exists|i: int| 0 <= i < s.len() && s[i].0@ == k,
    decreases s.len(),
{
    if s.len() > 0 {
        lemma_location_map_dom(s.drop_last(), k);
        if exists|i: int| 0 <= i < s.len() && s[i].0@ == k {
            let i = choose|i: int| 0 <= i < s.len() && s[i].0@ == k;
            if i < s.len() - 1 {
                assert(s.drop_last()[i].0@ == k);
            }
        }
        if exists|i: int| 0 <= i < s.drop_last().len() && s.drop_last()[i].0@ == k {
            let i = choose|i: int| 0 <= i < s.drop_last().len() && s.drop_last()[i].0@ == k;
            assert(s[i].0@ == k);
        }
    }
}

proof fn lemma_location_map_at(s: Seq<(MenuKey, Vec<Context>)>, i: int)
    requires
        keys_unique(s),
        0 <= i < s.len(),
    ensures
        location_map(s).dom().contains(s[i].0@),
        location_map(s)[s[i].0@] == entry_set(s[i].1@),
    decreases s.len(),
{
    if i < s.len() - 1 {
        lemma_location_map_at(s.drop_last(), i);
        assert(s.drop_last()[i] == s[i]);
    }
}

proof fn lemma_location_map_update(s: Seq<(MenuKey, Vec<Context>)>, i: int, x: (MenuKey, Vec<Context>))
    requires
        keys_unique(s),
        0 <= i < s.len(),
        x.0@ == s[i].0@,
    ensures
        keys_unique(s.update(i, x)),
        location_map(s.update(i, x)) == location_map(s).insert(x.0@, entry_set(x.1@)),
    decreases s.len(),
{
    let t = s.update(i, x);
    assert(keys_unique(t)) by {
        assert forall|a: int, b: int| 0 <= a < b < t.len() implies t[a].0@ != t[b].0@ by {
            assert(s[a].0@ != s[b].0@);
        }
    }
    if i == s.len() - 1 {
        assert(t.drop_last() =~= s.drop_last());
        assert(location_map(t) =~= location_map(s).insert(x.0@, entry_set(x.1@)));
    } else {
        assert(t.drop_last() =~= s.drop_last().update(i, x));
        lemma_location_map_update(s.drop_last(), i, x);
        assert(s.last().0@ != x.0@);
        assert(location_map(t) =~= location_map(s).insert(x.0@, entry_set(x.1@)));
    }
}

proof fn lemma_location_map_push(s: Seq<(MenuKey, Vec<Context>)>, x: (MenuKey, Vec<Context>))
    requires
        keys_unique(s),
        forall|i: int| 0 <= i < s.len() ==> s[i].0@ != x.0@,
    ensures
        keys_unique(s.push(x)),
        location_map(s.push(x)) == location_map(s).insert(x.0@, entry_set(x.1@)),
{
    assert(s.push(x).drop_last() =~= s);
}

proof fn lemma_entry_set_push(s: Seq<Context>, c: Context)
    ensures
        entry_set(s.push(c)) == entry_set(s).insert(c@),
{
    assert(s.push(c).drop_last() =~= s);
}

/// Every submenu link in the tree leads to a location of its own and to a
/// declaration with the same identifier.
pub open spec fn submenus_linked(m: MenusView) -> bool {
    forall|k: MenuKeyView, e: ContextView|
        m.locations.dom().contains(k) && #[trigger] m.locations[k].contains(e) && e is SubMenu ==> {
            &&& m.locations.dom().contains(MenuKeyView::Other(e->SubMenu_0.submenu))
            &&& exists|j: int| 0 <= j < m.submenus.len() && #[trigger] m.submenus[j].id == e->SubMenu_0.submenu
        }
}

/// Each declared submenu has its location, no identifier is declared twice,
/// and every submenu location has its declaration.
pub open spec fn declarations_match(m: MenusView) -> bool {
    &&& forall|j: int| 0 <= j < m.submenus.len() ==>
        m.locations.dom().contains(MenuKeyView::Other(#[trigger] m.submenus[j].id))
    &&& forall|j: int, k: int| 0 <= j < k < m.submenus.len() ==>
        #[trigger] m.submenus[j].id != #[trigger] m.submenus[k].id
    &&& forall|t: Seq<char>| #[trigger] m.locations.dom().contains(MenuKeyView::Other(t)) ==>
        exists|j: int| 0 <= j < m.submenus.len() && m.submenus[j].id == t
}

/// Every submenu link in a tree whose declarations match leads to its own
/// location and to exactly one declaration with its identifier.
pub proof fn lemma_submenu_declared_once(m: MenusView, k: MenuKeyView, e: ContextView)
    requires
        submenus_linked(m),
        declarations_match(m),
        m.locations.dom().contains(k),
        m.locations[k].contains(e),
        e is SubMenu,
    ensures
        m.locations.dom().contains(MenuKeyView::Other(e->SubMenu_0.submenu)),
        exists|j: int| 0 <= j < m.submenus.len() && m.submenus[j].id == e->SubMenu_0.submenu
            && forall|i: int| 0 <= i < m.submenus.len() && #[trigger] m.submenus[i].id == e->SubMenu_0.submenu ==> i == j,
{
    let j = choose|j: int| 0 <= j < m.submenus.len() && #[trigger] m.submenus[j].id == e->SubMenu_0.submenu;
    assert forall|i: int| 0 <= i < m.submenus.len() && #[trigger] m.submenus[i].id == e->SubMenu_0.submenu implies i == j by {
        if i < j {
            assert(m.submenus[i].id != m.submenus[j].id);
        } else if i > j {
            assert(m.submenus[j].id != m.submenus[i].id);
        }
    }
}

pub struct MenusView {
    pub locations: Map<MenuKeyView, Set<ContextView>>,
    pub submenus: Seq<SubMenuView>,
}

/// The menu tree: entries per location, and the declared submenus.
///
/// Locations are kept as a vector of (key, entries) pairs with unique keys,
/// viewed as a map from key to the set of its entries. Map and set carry no
/// order: the order in which a location's entries are written out is chosen
/// where the manifest is serialized. Keys holding strings are kept this way
/// rather than in a `BTreeMap`, on which nothing could be proved for such keys.
#[derive(Debug)]
pub struct Menus {
    menus: Vec<(MenuKey, Vec<Context>)>,
    submenus: Vec<SubMenu>,
}

impl View for Menus {
    type V = MenusView;

    closed spec fn view(&self) -> MenusView {
        MenusView {
            locations: location_map(self.menus@),
            submenus: self.submenus@.map_values(|s: SubMenu| s@),
        }
    }
}

impl Menus {
    /// Each location is held once.
    pub closed spec fn wf(&self) -> bool {
        keys_unique(self.menus@) && declarations_match(self@)
    }

    /// A well-formed tree declares each submenu identifier once, with its location.
    pub proof fn lemma_wf_declarations(&self)
        requires
            self.wf(),
        ensures
            declarations_match(self@),
    {
    }

    /// A tree with the two fixed locations and nothing in them.
    pub fn new() -> (r: Menus)
        ensures
            r.wf(),
            r@.locations == map![
                MenuKeyView::Navigation => Set::<ContextView>::empty(),
                MenuKeyView::Context => Set::<ContextView>::empty()
            ],
            r@.submenus.len() == 0,
            submenus_linked(r@),
    {
        let r = Menus::with_baseline(Vec::new(), Vec::new());
        proof {
            assert(entry_set(Seq::<Context>::empty()) == Set::<ContextView>::empty());
        }
        r
    }

    /// A tree whose two fixed locations are seeded with the given entries.
    pub fn with_baseline(navigation: Vec<Context>, context: Vec<Context>) -> (r: Menus)
        ensures
            r.wf(),
            r@.locations == map![
                MenuKeyView::Navigation => entry_set(navigation@),
                MenuKeyView::Context => entry_set(context@)
            ],
            r@.submenus.len() == 0,
    {
        let mut menus: Vec<(MenuKey, Vec<Context>)> = Vec::new();
        menus.push((MenuKey::Navigation, navigation));
        menus.push((MenuKey::Context, context));
        let r = Menus { menus, submenus: Vec::new() };
        proof {
            let s = r.menus@;
            assert(s.drop_last().drop_last() =~= Seq::<(MenuKey, Vec<Context>)>::empty());
            assert(location_map(s.drop_last().drop_last()) == Map::<MenuKeyView, Set<ContextView>>::empty());
            assert(s.drop_last().last() == s[0]);
            assert(location_map(s.drop_last()) == Map::<MenuKeyView, Set<ContextView>>::empty().insert(
                MenuKeyView::Navigation, entry_set(navigation@)));
            assert(location_map(s) =~= map![
                MenuKeyView::Navigation => entry_set(navigation@),
                MenuKeyView::Context => entry_set(context@)
            ]);
            assert(r@.submenus =~= Seq::<SubMenuView>::empty());
        }
        r
    }

    fn find(&self, key: &MenuKey) -> (r: Option<usize>)
        ensures
            match r {
                Some(i) => i < self.menus@.len() && self.menus@[i as int].0@ == key@,
                None => forall|i: int| 0 <= i < self.menus@.len() ==> self.menus@[i].0@ != key@,
            },
    {
        let mut i: usize = 0;
        while i < self.menus.len()
            invariant
                i <= self.menus@.len(),
                forall|j: int| 0 <= j < i ==> self.menus@[j].0@ != key@,
            decreases self.menus@.len() - i,
        {
            if self.menus[i].0.same_as(key) {
                return Some(i);
            }
            i = i + 1;
        }
        None
    }

    /// The locations, each with its entries, in the order they were created.
    pub fn locations(&self) -> (r: &Vec<(MenuKey, Vec<Context>)>)
        requires
            self.wf(),
        ensures
            keys_unique(r@),
            location_map(r@) == self@.locations,
    {
        &self.menus
    }

    /// The declared submenus, in the order they were declared.
    pub fn submenus(&self) -> (r: &Vec<SubMenu>)
        ensures
            r@.map_values(|s: SubMenu| s@) == self@.submenus,
    {
        &self.submenus
    }

    /// Inserts `cc` into the item-context location.
    pub fn add_context_toplevel(&mut self, cc: CommandContext)
        requires
            old(self).wf(),
            old(self)@.locations.dom().contains(MenuKeyView::Context),
        ensures
            final(self).wf(),
            final(self)@.locations == old(self)@.locations.insert(
                MenuKeyView::Context,
                old(self)@.locations[MenuKeyView::Context].insert(ContextView::Command(cc@)),
            ),
            final(self)@.submenus == old(self)@.submenus,
            submenus_linked(old(self)@) ==> submenus_linked(final(self)@),
    {
        self.add_context_submenu(&MenuKey::Context, cc)
    }

    /// Declares the submenu `submenu_name` under the item-context location.
    pub fn add_submenu_toplevel(&mut self, submenu_name: &str, idx: usize, icon: Option<String>) -> (r: MenuKey)
        requires
            old(self).wf(),
            old(self)@.locations.dom().contains(MenuKeyView::Context),
        ensures
            final(self).wf(),
            r@ == MenuKeyView::Other(submenu_id_of(submenu_name@)),
            old(self)@.locations.dom().contains(r@) ==> {
                &&& final(self)@.locations == old(self)@.locations.insert(
                    MenuKeyView::Context,
                    old(self)@.locations[MenuKeyView::Context].insert(
                        ContextView::SubMenu(SubMenuContextView {
                            group: group_token_of("create"@, idx as nat),
                            submenu: submenu_id_of(submenu_name@),
                            when: item_when(),
                        }),
                    ),
                )
                &&& final(self)@.submenus == old(self)@.submenus
            },
            !old(self)@.locations.dom().contains(r@) ==> {
                &&& final(self)@.locations == old(self)@.locations.insert(
                    MenuKeyView::Context,
                    old(self)@.locations[MenuKeyView::Context].insert(
                        ContextView::SubMenu(SubMenuContextView {
                            group: group_token_of("create"@, idx as nat),
                            submenu: submenu_id_of(submenu_name@),
                            when: item_when(),
                        }),
                    ),
                ).insert(r@, Set::empty())
                &&& final(self)@.submenus == old(self)@.submenus.push(
                    SubMenuView { id: submenu_id_of(submenu_name@), label: submenu_name@, icon: opt_view(icon) },
                )
            },
            submenus_linked(old(self)@) ==> submenus_linked(final(self)@),
    {
        self.add_submenu_submenu(&MenuKey::Context, submenu_name, idx, icon)
    }

    fn add_entry(&mut self, key: &MenuKey, entry: Context)
        requires
            old(self).wf(),
            old(self)@.locations.dom().contains(key@),
        ensures
            final(self).wf(),
            final(self)@.locations == old(self)@.locations.insert(
                key@,
                old(self)@.locations[key@].insert(entry@),
            ),
            final(self)@.submenus == old(self)@.submenus,
    {
        proof {
            lemma_location_map_dom(self.menus@, key@);
        }
        let found = self.find(key);
        match found {
            Some(i) => {
                let ghost before = self.menus@;
                proof {
                    lemma_location_map_at(before, i as int);
                }
                let (k, mut inner) = self.menus.remove(i);
                let ghost old_inner = inner@;
                inner.push(entry);
                proof {
                    lemma_entry_set_push(old_inner, entry);
                }
                self.menus.insert(i, (k, inner));
                proof {
                    assert(self.menus@ =~= before.update(i as int, (k, inner)));
                    lemma_location_map_update(before, i as int, (k, inner));
                }
            },
            None => {},
        }
    }

    /// Inserts `cc` into the location `submenu`.
    pub fn add_context_submenu(&mut self, submenu: &MenuKey, cc: CommandContext)
        requires
            old(self).wf(),
            old(self)@.locations.dom().contains(submenu@),
        ensures
            final(self).wf(),
            final(self)@.locations == old(self)@.locations.insert(
                submenu@,
                old(self)@.locations[submenu@].insert(ContextView::Command(cc@)),
            ),
            final(self)@.submenus == old(self)@.submenus,
            submenus_linked(old(self)@) ==> submenus_linked(final(self)@),
    {
        self.add_entry(submenu, Context::Command(cc));
        proof {
            let o = old(self)@;
            let n = self@;
            if submenus_linked(o) {
                assert forall|k: MenuKeyView, e: ContextView|
                    n.locations.dom().contains(k) && #[trigger] n.locations[k].contains(e) && e is SubMenu implies {
                        &&& n.locations.dom().contains(MenuKeyView::Other(e->SubMenu_0.submenu))
                        &&& exists|j: int| 0 <= j < n.submenus.len() && #[trigger] n.submenus[j].id == e->SubMenu_0.submenu
                    } by {
                    assert(o.locations[k].contains(e));
                }
            }
        }
    }

    /// Declares the submenu `submenu_name` under `parent` and links it from
    /// `parent`. A first declaration of its identifier records it and creates
    /// its own, empty, location; a repeated one is redundant: the declaration
    /// and the location already there, with their entries, are kept. The key of
    /// the submenu's location is returned.
    pub fn add_submenu_submenu(
        &mut self,
        parent: &MenuKey,
        submenu_name: &str,
        idx: usize,
        icon: Option<String>,
    ) -> (r: MenuKey)
        requires
            old(self).wf(),
            old(self)@.locations.dom().contains(parent@),
        ensures
            final(self).wf(),
            r@ == MenuKeyView::Other(submenu_id_of(submenu_name@)),
            old(self)@.locations.dom().contains(r@) ==> {
                &&& final(self)@.locations == old(self)@.locations.insert(
                    parent@,
                    old(self)@.locations[parent@].insert(
                        ContextView::SubMenu(SubMenuContextView {
                            group: group_token_of("create"@, idx as nat),
                            submenu: submenu_id_of(submenu_name@),
                            when: item_when(),
                        }),
                    ),
                )
                &&& final(self)@.submenus == old(self)@.submenus
            },
            !old(self)@.locations.dom().contains(r@) ==> {
                &&& final(self)@.locations == old(self)@.locations.insert(
                    parent@,
                    old(self)@.locations[parent@].insert(
                        ContextView::SubMenu(SubMenuContextView {
                            group: group_token_of("create"@, idx as nat),
                            submenu: submenu_id_of(submenu_name@),
                            when: item_when(),
                        }),
                    ),
                ).insert(r@, Set::empty())
                &&& final(self)@.submenus == old(self)@.submenus.push(
                    SubMenuView { id: submenu_id_of(submenu_name@), label: submenu_name@, icon: opt_view(icon) },
                )
            },
            submenus_linked(old(self)@) ==> submenus_linked(final(self)@),
    {
        let cased = lower_camel(submenu_name);
        let mut id = String::from_str("gmVfs.");
        id.append(cased.as_str());
        let key = MenuKey::Other(id.clone());
        proof {
            lemma_location_map_dom(self.menus@, key@);
        }
        let found = self.find(&key);
        self.add_entry(parent, Context::SubMenu(SubMenuContext::new(cased.as_str(), idx)));
        let ghost mid = self.menus@;
        let ghost mid_view = self@;
        match found {
            Some(_) => {},
            None => {
                let sub = SubMenu { id, label: String::from_str(submenu_name), icon };
                let ghost sub_view = sub@;
                self.submenus.push(sub);
                proof {
                    lemma_location_map_dom(mid, key@);
                }
                self.menus.push((key.duplicate(), Vec::new()));
                proof {
                    assert(self.submenus@.map_values(|s: SubMenu| s@) =~= mid_view.submenus.push(sub_view));
                    let x = self.menus@.last();
                    assert(self.menus@ =~= mid.push(x));
                    assert(x.1@ =~= Seq::<Context>::empty());
                    lemma_location_map_push(mid, x);
                    assert(entry_set(x.1@) == Set::<ContextView>::empty());
                    let o = mid_view;
                    let n = self@;
                    assert(n.locations == o.locations.insert(key@, Set::empty()));
                    assert(n.submenus == o.submenus.push(sub_view));
                    assert forall|j: int| 0 <= j < n.submenus.len() implies
                        n.locations.dom().contains(MenuKeyView::Other(#[trigger] n.submenus[j].id)) by {
                        if j < o.submenus.len() {
                            assert(n.submenus[j] == o.submenus[j]);
                        }
                    }
                    assert forall|j: int, k: int| 0 <= j < k < n.submenus.len() implies
                        #[trigger] n.submenus[j].id != #[trigger] n.submenus[k].id by {
                        assert(n.submenus[j] == o.submenus[j]);
                        if k < o.submenus.len() {
                            assert(n.submenus[k] == o.submenus[k]);
                        } else {
                            assert(o.locations.dom().contains(MenuKeyView::Other(o.submenus[j].id)));
                        }
                    }
                    assert forall|t: Seq<char>| #[trigger] n.locations.dom().contains(MenuKeyView::Other(t)) implies
                        exists|j: int| 0 <= j < n.submenus.len() && n.submenus[j].id == t by {
                        if MenuKeyView::Other(t) == key@ {
                            assert(n.submenus[o.submenus.len() as int].id == t);
                        } else {
                            assert(o.locations.dom().contains(MenuKeyView::Other(t)));
                            let j = choose|j: int| 0 <= j < o.submenus.len() && o.submenus[j].id == t;
                            assert(n.submenus[j] == o.submenus[j]);
                        }
                    }
                }
            },
        }
        proof {
            let o = old(self)@;
            let n = self@;
            let link = ContextView::SubMenu(SubMenuContextView {
                group: group_token_of("create"@, idx as nat),
                submenu: submenu_id_of(submenu_name@),
                when: item_when(),
            });
            assert(n.locations.dom().contains(key@));
            assert(exists|j: int| 0 <= j < n.submenus.len() && n.submenus[j].id == submenu_id_of(submenu_name@));
            if submenus_linked(o) {
                assert forall|k: MenuKeyView, e: ContextView|
                    n.locations.dom().contains(k) && #[trigger] n.locations[k].contains(e) && e is SubMenu implies {
                        &&& n.locations.dom().contains(MenuKeyView::Other(e->SubMenu_0.submenu))
                        &&& exists|j: int| 0 <= j < n.submenus.len() && #[trigger] n.submenus[j].id == e->SubMenu_0.submenu
                    } by {
                    if e == link {
                        let j = choose|j: int| 0 <= j < n.submenus.len() && n.submenus[j].id == submenu_id_of(submenu_name@);
                        assert(n.submenus[j].id == e->SubMenu_0.submenu);
                    } else {
                        if k == key@ && !o.locations.dom().contains(key@) {
                            assert(n.locations[k] == Set::<ContextView>::empty());
                        }
                        assert(o.locations.dom().contains(k));
                        assert(o.locations[k].contains(e));
                        let j = choose|j: int| 0 <= j < o.submenus.len() && #[trigger] o.submenus[j].id == e->SubMenu_0.submenu;
                        assert(n.submenus[j].id == e->SubMenu_0.submenu);
                    }
                }
            }
        }
        key
    }
}

} // verus!
