use vstd::prelude::*;
use vstd::string::StringExecFns;

use crate::strings::push_char;

verus! {

/// What selecting a menu entry does.
pub enum MenuAction {
    /// Ends the session and hands the string to the caller.
    Terminal(String),
    /// Descends into a nested menu.
    SubMenu(Menu),
    /// Switches to text capture; the result is the prefix followed by the text.
    Prompt(Prompt),
}

/// The data of a free-text prompt.
pub struct Prompt {
    pub prompt: String,
    pub prefix: String,
}

/// One entry of a menu, bound to a single hotkey.
pub struct MenuEntry {
    pub hotkey: char,
    pub message: String,
    pub action: MenuAction,
}

/// A menu: a title, a message and its entries in display order.
pub struct Menu {
    pub title: String,
    pub message: String,
    pub entries: Vec<MenuEntry>,
}

impl Menu {
    /// The hotkeys of the entries, in display order.
    pub open spec fn hotkeys(self) -> Seq<char> {
        self.entries@.map_values(|e: MenuEntry| e.hotkey)
    }

    /// `i` is the first entry bound to `key`.
    pub open spec fn is_first_key(self, key: char, i: int) -> bool {
        &&& 0 <= i < self.entries@.len()
        &&& self.entries@[i].hotkey == key
        &&& forall|j: int| 0 <= j < i ==> self.entries@[j].hotkey != key
    }

    /// The action of the first entry bound to `key`, if any.
    pub open spec fn lookup(self, key: char) -> Option<MenuAction> {
        if exists|i: int| self.is_first_key(key, i) {
            Some(self.entries@[choose|i: int| self.is_first_key(key, i)].action)
        } else {
            None
        }
    }

    /// The action bound to `key` in this menu, or `None` when no entry has it.
    pub fn get_action(&self, key: char) -> (r: Option<&MenuAction>)
        ensures
            r is None <==> !self.hotkeys().contains(key),
            r is None <==> self.lookup(key) is None,
            r matches Some(a) ==> self.lookup(key) == Some(*a),
    {
        let mut i: usize = 0;
        while i < self.entries.len()
            invariant
                0 <= i <= self.entries@.len(),
                forall|j: int| 0 <= j < i ==> self.entries@[j].hotkey != key,
            decreases self.entries@.len() - i,
        {
            if self.entries[i].hotkey == key {
                assert(self.is_first_key(key, i as int));
                let ghost k = choose|k: int| self.is_first_key(key, k);
                assert(k == i) by {
                    if k < i {
                    } else if k > i {
                        assert(self.entries@[i as int].hotkey == key);
                    }
                }
                assert(self.hotkeys()[i as int] == key);
                return Some(&self.entries[i].action);
            }
            i = i + 1;
        }
        assert(!self.hotkeys().contains(key)) by {
            if self.hotkeys().contains(key) {
                let k = choose|k: int| 0 <= k < self.hotkeys().len() && self.hotkeys()[k] == key;
                assert(self.entries@[k].hotkey == key);
            }
        }
        None
    }
}

/// Why a menu definition could not be turned into a menu.
#[derive(Debug, Clone, Copy, PartialEq, Eq, Structural)]
pub enum MenuError {
    /// An explicit hotkey repeats one already bound in the same menu.
    HotkeyCollision,
    /// An entry without a hotkey found the fallback pool empty.
    HotkeyPoolExhausted,
}

/// The fallback hotkeys, handed out from the back.
pub fn default_pool() -> (r: Vec<char>)
    ensures
        r@ == seq!['l', 'k', 'j', 'h', 'g', 'f', 'd', 's', 'a'],
        r@.no_duplicates(),
{
    let r = vec!['l', 'k', 'j', 'h', 'g', 'f', 'd', 's', 'a'];
    assert(r@ =~= seq!['l', 'k', 'j', 'h', 'g', 'f', 'd', 's', 'a']);
    r
}

/// `pool` with every occurrence of `key` taken out.
pub open spec fn pool_without(pool: Seq<char>, key: char) -> Seq<char> {
    pool.filter(|c: char| c != key)
}

/// One entry's assignment, from the hotkeys bound so far and the pool left.
pub open spec fn assign_step(keys: Seq<char>, pool: Seq<char>, wanted: Option<char>) -> Result<
    (Seq<char>, Seq<char>),
    MenuError,
> {
    match wanted {
        Some(k) => if keys.contains(k) {
            Err(MenuError::HotkeyCollision)
        } else {
            Ok((keys.push(k), pool_without(pool, k)))
        },
        None => if pool.len() == 0 {
            Err(MenuError::HotkeyPoolExhausted)
        } else {
            Ok((keys.push(pool.last()), pool.drop_last()))
        },
    }
}

/// The hotkeys of one menu, given the hotkeys its entries ask for in order,
/// together with what is left of the pool; or the first failure.
pub open spec fn assign(wanted: Seq<Option<char>>, pool: Seq<char>) -> Result<
    (Seq<char>, Seq<char>),
    MenuError,
>
    decreases wanted.len(),
{
    if wanted.len() == 0 {
        Ok((Seq::empty(), pool))
    } else {
        match assign(wanted.drop_last(), pool) {
            Err(e) => Err(e),
            Ok((keys, rest)) => assign_step(keys, rest, wanted.last()),
        }
    }
}

proof fn lemma_filter_keeps_distinct(pool: Seq<char>, key: char)
    requires
        pool.no_duplicates(),
    ensures
        pool_without(pool, key).no_duplicates(),
        forall|c: char| pool_without(pool, key).contains(c) <==> (pool.contains(c) && c != key),
    decreases pool.len(),
{
    broadcast use vstd::seq_lib::group_filter_ensures;
    reveal(Seq::filter);
    if pool.len() > 0 {
        let init = pool.drop_last();
        assert(init.no_duplicates()) by {
            assert forall|i: int, j: int| 0 <= i < init.len() && 0 <= j < init.len() && i != j
                implies init[i] != init[j] by {
                assert(init[i] == pool[i] && init[j] == pool[j]);
            }
        }
        lemma_filter_keeps_distinct(init, key);
        assert(pool =~= init.push(pool.last()));
        assert(!init.contains(pool.last())) by {
            if init.contains(pool.last()) {
                let i = choose|i: int| 0 <= i < init.len() && init[i] == pool.last();
                assert(pool[i] == pool[pool.len() - 1]);
            }
        }
        let f = pool_without(init, key);
        assert(forall|c: char| pool.contains(c) <==> (init.contains(c) || c == pool.last())) by {
            assert forall|c: char| pool.contains(c) implies (init.contains(c) || c == pool.last()) by {
                if pool.contains(c) {
                    let i = choose|i: int| 0 <= i < pool.len() && pool[i] == c;
                    if i < pool.len() - 1 {
                        assert(init[i] == c);
                    }
                }
            }
            assert forall|c: char| init.contains(c) implies pool.contains(c) by {
                let i = choose|i: int| 0 <= i < init.len() && init[i] == c;
                assert(pool[i] == c);
            }
        }
        if pool.last() != key {
            assert(pool_without(pool, key) == f.push(pool.last()));
            assert(!f.contains(pool.last()));
            let g = f.push(pool.last());
            assert forall|c: char| g.contains(c) <==> (f.contains(c) || c == pool.last()) by {
                if g.contains(c) {
                    let i = choose|i: int| 0 <= i < g.len() && g[i] == c;
                    if i < f.len() {
                        assert(f[i] == c);
                    }
                }
                if f.contains(c) {
                    let i = choose|i: int| 0 <= i < f.len() && f[i] == c;
                    assert(g[i] == c);
                }
                if c == pool.last() {
                    assert(g[f.len() as int] == c);
                }
            }
            assert forall|i: int, j: int| 0 <= i < g.len() && 0 <= j < g.len() && i != j
                implies g[i] != g[j] by {
                if i < f.len() && j < f.len() {
                    assert(g[i] == f[i] && g[j] == f[j]);
                } else if i < f.len() {
                    assert(g[i] == f[i]);
                    assert(f.contains(f[i]));
                } else if j < f.len() {
                    assert(g[j] == f[j]);
                    assert(f.contains(f[j]));
                }
            }
        } else {
            assert(pool_without(pool, key) == f);
        }
    }
}

/// Hotkeys assigned to sibling entries are pairwise distinct, none is left in
/// the pool, and the pool stays free of repeats, whatever the entries ask for.
pub proof fn lemma_assigned_hotkeys_distinct(wanted: Seq<Option<char>>, pool: Seq<char>)
    requires
        pool.no_duplicates(),
    ensures
        assign(wanted, pool) matches Ok((keys, rest)) ==> {
            &&& keys.len() == wanted.len()
            &&& keys.no_duplicates()
            &&& rest.no_duplicates()
            &&& forall|c: char| keys.contains(c) ==> !rest.contains(c)
        },
    decreases wanted.len(),
{
    if wanted.len() > 0 {
        lemma_assigned_hotkeys_distinct(wanted.drop_last(), pool);
        if let Ok((keys, rest)) = assign(wanted.drop_last(), pool) {
            match wanted.last() {
                Some(k) => {
                    if !keys.contains(k) {
                        lemma_filter_keeps_distinct(rest, k);
                        let nk = keys.push(k);
                        assert forall|c: char| nk.contains(c) implies (keys.contains(c) || c == k) by {
                            let i = choose|i: int| 0 <= i < nk.len() && nk[i] == c;
                            if i < keys.len() {
                                assert(keys[i] == c);
                            }
                        }
                        assert forall|i: int, j: int| 0 <= i < nk.len() && 0 <= j < nk.len() && i != j
                            implies nk[i] != nk[j] by {
                            if i < keys.len() && j < keys.len() {
                            } else if i < keys.len() {
                                assert(keys.contains(keys[i]));
                            } else if j < keys.len() {
                                assert(keys.contains(keys[j]));
                            }
                        }
                    }
                },
                None => {
                    if rest.len() > 0 {
                        let p = rest.last();
                        let nk = keys.push(p);
                        let nr = rest.drop_last();
                        assert(rest.contains(p));
                        assert forall|c: char| nk.contains(c) implies (keys.contains(c) || c == p) by {
                            let i = choose|i: int| 0 <= i < nk.len() && nk[i] == c;
                            if i < keys.len() {
                                assert(keys[i] == c);
                            }
                        }
                        assert forall|c: char| nr.contains(c) implies (rest.contains(c) && c != p) by {
                            let i = choose|i: int| 0 <= i < nr.len() && nr[i] == c;
                            assert(rest[i] == c);
                        }
                        assert forall|i: int, j: int| 0 <= i < nk.len() && 0 <= j < nk.len() && i != j
                            implies nk[i] != nk[j] by {
                            if i < keys.len() && j < keys.len() {
                            } else if i < keys.len() {
                                assert(keys.contains(keys[i]));
                            } else if j < keys.len() {
                                assert(keys.contains(keys[j]));
                            }
                        }
                        assert forall|i: int, j: int| 0 <= i < nr.len() && 0 <= j < nr.len() && i != j
                            implies nr[i] != nr[j] by {
                            assert(nr[i] == rest[i] && nr[j] == rest[j]);
                        }
                    }
                },
            }
        }
    }
}

proof fn lemma_all_auto_fit(wanted: Seq<Option<char>>, pool: Seq<char>)
    requires
        forall|i: int| 0 <= i < wanted.len() ==> wanted[i] is None,
        wanted.len() <= pool.len(),
    ensures
        assign(wanted, pool) matches Ok((keys, rest)) && rest.len() == pool.len() - wanted.len(),
    decreases wanted.len(),
{
    if wanted.len() > 0 {
        lemma_all_auto_fit(wanted.drop_last(), pool);
    }
}

/// When no entry asks for a hotkey and there are more entries than the pool
/// holds, the assignment fails for want of hotkeys.
pub proof fn lemma_pool_exhausted(wanted: Seq<Option<char>>, pool: Seq<char>)
    requires
        forall|i: int| 0 <= i < wanted.len() ==> wanted[i] is None,
        wanted.len() > pool.len(),
    ensures
        assign(wanted, pool) == Err::<(Seq<char>, Seq<char>), MenuError>(MenuError::HotkeyPoolExhausted),
    decreases wanted.len(),
{
    let init = wanted.drop_last();
    if init.len() > pool.len() {
        lemma_pool_exhausted(init, pool);
    } else {
        lemma_all_auto_fit(init, pool);
    }
}

/// Runs the hotkey assignment of one menu: `wanted` holds the hotkey each
/// entry asks for, in order; the result holds the hotkey each entry gets.
pub fn assign_hotkeys(wanted: &Vec<Option<char>>, pool: &Vec<char>) -> (r: Result<Vec<char>, MenuError>)
    ensures
        r matches Ok(keys) ==> assign(wanted@, pool@) matches Ok((k, _)) && keys@ == k,
        r matches Err(e) ==> assign(wanted@, pool@) == Err::<(Seq<char>, Seq<char>), MenuError>(e),
        r is Ok <==> assign(wanted@, pool@) is Ok,
{
    let mut keys: Vec<char> = Vec::new();
    let mut rest: Vec<char> = pool.clone();
    let mut i: usize = 0;
    while i < wanted.len()
        invariant
            0 <= i <= wanted@.len(),
            assign(wanted@.take(i as int), pool@) == Ok::<(Seq<char>, Seq<char>), MenuError>((keys@, rest@)),
        decreases wanted@.len() - i,
    {
        assert(wanted@.take(i as int + 1).drop_last() =~= wanted@.take(i as int));
        match wanted[i] {
            Some(k) => {
                let mut j: usize = 0;
                let mut taken = false;
                while j < keys.len()
                    invariant
                        0 <= j <= keys@.len(),
                        taken <==> exists|q: int| 0 <= q < j && keys@[q] == k,
                    decreases keys@.len() - j,
                {
                    if keys[j] == k {
                        taken = true;
                    }
                    j = j + 1;
                }
                if taken {
                    proof {
                        lemma_error_persists(wanted@, pool@, i as int + 1);
                    }
                    return Err(MenuError::HotkeyCollision);
                }
                let mut kept: Vec<char> = Vec::new();
                let mut m: usize = 0;
                while m < rest.len()
                    invariant
                        0 <= m <= rest@.len(),
                        kept@ == pool_without(rest@.take(m as int), k),
                    decreases rest@.len() - m,
                {
                    proof {
                        reveal(Seq::filter);
                        assert(rest@.take(m as int + 1).drop_last() =~= rest@.take(m as int));
                    }
                    if rest[m] != k {
                        kept.push(rest[m]);
                    }
                    m = m + 1;
                }
                assert(rest@.take(m as int) =~= rest@);
                keys.push(k);
                rest = kept;
            },
            None => {
                if rest.len() == 0 {
                    proof {
                        lemma_error_persists(wanted@, pool@, i as int + 1);
                    }
                    return Err(MenuError::HotkeyPoolExhausted);
                }
                let c = rest.pop().unwrap();
                keys.push(c);
            },
        }
        i = i + 1;
    }
    assert(wanted@.take(i as int) =~= wanted@);
    Ok(keys)
}

proof fn lemma_error_persists(wanted: Seq<Option<char>>, pool: Seq<char>, n: int)
    requires
        0 <= n <= wanted.len(),
        assign(wanted.take(n), pool) is Err,
    ensures
        assign(wanted, pool) == assign(wanted.take(n), pool),
    decreases wanted.len() - n,
{
    if n < wanted.len() {
        assert(wanted.take(n + 1).drop_last() =~= wanted.take(n));
        lemma_error_persists(wanted, pool, n + 1);
    } else {
        assert(wanted.take(n) =~= wanted);
    }
}

/// What an entry of a menu definition does once the menu is built.
pub enum ActionDef {
    Terminal(String),
    SubMenu(MenuDef),
    Prompt(Prompt),
}

/// An entry as the configuration gives it: the hotkey is optional.
pub struct EntryDef {
    pub hotkey: Option<char>,
    pub message: String,
    pub action: ActionDef,
}

/// A menu as the configuration gives it, before hotkeys are assigned.
pub struct MenuDef {
    pub title: String,
    pub message: String,
    pub entries: Vec<EntryDef>,
}

impl MenuDef {
    /// The hotkey each entry asks for, in order.
    pub open spec fn wanted(self) -> Seq<Option<char>> {
        self.entries@.map_values(|e: EntryDef| e.hotkey)
    }
}

/// The first failure met while building `d`: its own hotkeys first, then its
/// submenus in entry order.
pub open spec fn def_error(d: MenuDef, pool: Seq<char>) -> Option<MenuError>
    decreases d, d.entries@.len() + 1,
{
    match assign(d.wanted(), pool) {
        Err(e) => Some(e),
        Ok(_) => entries_error(d, pool, 0),
    }
}

/// The first failure among the submenus of `d` from entry `i` on.
pub open spec fn entries_error(d: MenuDef, pool: Seq<char>, i: int) -> Option<MenuError>
    decreases d, d.entries@.len() - i,
{
    if i < 0 || i >= d.entries@.len() {
        None
    } else {
        match d.entries@[i].action {
            ActionDef::SubMenu(c) => match def_error(c, pool) {
                Some(e) => Some(e),
                None => entries_error(d, pool, i + 1),
            },
            _ => entries_error(d, pool, i + 1),
        }
    }
}

proof fn lemma_def_error_unfold(d: MenuDef, pool: Seq<char>)
    ensures
        def_error(d, pool) == match assign(d.wanted(), pool) {
            Err(e) => Some(e),
            Ok(_) => entries_error(d, pool, 0),
        },
{
    reveal_with_fuel(def_error, 2);
}

/// Building the submenus of the entries before `n` fails exactly where
/// building all of them does.
#[verifier::opaque]
spec fn submenus_fine_before(d: MenuDef, pool: Seq<char>, n: int) -> bool {
    entries_error(d, pool, 0) == entries_error(d, pool, n)
}

proof fn lemma_submenus_fine_step(d: MenuDef, pool: Seq<char>, n: int)
    requires
        0 <= n < d.entries@.len(),
        submenus_fine_before(d, pool, n),
    ensures
        child_error(d.entries@[n].action, pool) is Some ==> entries_error(d, pool, 0) == child_error(
            d.entries@[n].action,
            pool,
        ),
        child_error(d.entries@[n].action, pool) is None ==> submenus_fine_before(d, pool, n + 1),
{
    reveal(submenus_fine_before);
    lemma_entries_error_step(d, pool, n);
}

proof fn lemma_submenus_fine_end(d: MenuDef, pool: Seq<char>)
    requires
        submenus_fine_before(d, pool, d.entries@.len() as int),
    ensures
        entries_error(d, pool, 0) is None,
{
    reveal(submenus_fine_before);
    lemma_entries_error_end(d, pool);
}

/// The failure met while building the submenu that `ad` describes, if any.
pub open spec fn child_error(ad: ActionDef, pool: Seq<char>) -> Option<MenuError> {
    match ad {
        ActionDef::SubMenu(c) => def_error(c, pool),
        _ => None,
    }
}

proof fn lemma_entries_error_step(d: MenuDef, pool: Seq<char>, i: int)
    requires
        0 <= i < d.entries@.len(),
    ensures
        child_error(d.entries@[i].action, pool) is Some ==> entries_error(d, pool, i) == child_error(
            d.entries@[i].action,
            pool,
        ),
        child_error(d.entries@[i].action, pool) is None ==> entries_error(d, pool, i)
            == entries_error(d, pool, i + 1),
{
    reveal_with_fuel(entries_error, 2);
}

proof fn lemma_entries_error_end(d: MenuDef, pool: Seq<char>)
    ensures
        entries_error(d, pool, d.entries@.len() as int) is None,
{
    reveal_with_fuel(entries_error, 2);
}

/// `m` is the menu that `d` describes, with hotkeys assigned from `pool`.
pub open spec fn built_from(m: Menu, d: MenuDef, pool: Seq<char>) -> bool
    decreases d,
{
    &&& m.title@ == d.title@
    &&& m.message@ == d.message@
    &&& m.entries@.len() == d.entries@.len()
    &&& assign(d.wanted(), pool) matches Ok((keys, _)) && m.hotkeys() == keys
    &&& forall|i: int|
        0 <= i < d.entries@.len() ==> {
            &&& m.entries@[i].message@ == d.entries@[i].message@
            &&& action_built_from(m.entries@[i].action, d.entries@[i].action, pool)
        }
}

/// `a` is the action that `ad` describes.
pub open spec fn action_built_from(a: MenuAction, ad: ActionDef, pool: Seq<char>) -> bool
    decreases ad,
{
    match (a, ad) {
        (MenuAction::Terminal(s), ActionDef::Terminal(t)) => s@ == t@,
        (MenuAction::Prompt(p), ActionDef::Prompt(q)) => p.prompt@ == q.prompt@ && p.prefix@ == q.prefix@,
        (MenuAction::SubMenu(m), ActionDef::SubMenu(dm)) => built_from(m, dm, pool),
        _ => false,
    }
}

impl Menu {
    /// Sibling hotkeys are distinct, in this menu and in every submenu.
    pub open spec fn wf(self) -> bool
        decreases self,
    {
        &&& self.hotkeys().no_duplicates()
        &&& forall|i: int|
            0 <= i < self.entries@.len() ==> (#[trigger] self.entries@[i].action matches MenuAction::SubMenu(
                c,
            ) ==> c.wf())
    }
}

impl Prompt {
    /// A copy of this prompt.
    pub fn duplicate(&self) -> (r: Prompt)
        ensures
            r.prompt@ == self.prompt@,
            r.prefix@ == self.prefix@,
    {
        Prompt { prompt: self.prompt.clone(), prefix: self.prefix.clone() }
    }
}

/// Builds the action that `ad` describes, building a submenu in full.
fn build_action(ad: &ActionDef, pool: &Vec<char>) -> (r: Result<MenuAction, MenuError>)
    requires
        pool@.no_duplicates(),
    ensures
        r is Ok <==> child_error(*ad, pool@) is None,
        r matches Err(e) ==> child_error(*ad, pool@) == Some(e),
        r matches Ok(a) ==> action_built_from(a, *ad, pool@),
        r matches Ok(a) ==> (a matches MenuAction::SubMenu(c) ==> c.wf()),
    decreases ad,
{
    match ad {
        ActionDef::Terminal(t) => Ok(MenuAction::Terminal(t.clone())),
        ActionDef::Prompt(p) => Ok(MenuAction::Prompt(p.duplicate())),
        ActionDef::SubMenu(c) => match Menu::from_def(c, pool) {
            Ok(m) => Ok(MenuAction::SubMenu(m)),
            Err(err) => Err(err),
        },
    }
}

impl Menu {
    /// Builds the menu that `def` describes. Each menu, and each submenu in
    /// turn, gets its hotkeys from its own copy of `pool`; the first failure
    /// ends the build.
    #[verifier::rlimit(50)]
    pub fn from_def(def: &MenuDef, pool: &Vec<char>) -> (r: Result<Menu, MenuError>)
        requires
            pool@.no_duplicates(),
        ensures
            r is Ok <==> def_error(*def, pool@) is None,
            r matches Err(e) ==> def_error(*def, pool@) == Some(e),
            r matches Ok(m) ==> built_from(m, *def, pool@) && m.wf(),
        decreases def,
    {
        let mut wanted: Vec<Option<char>> = Vec::new();
        let mut i: usize = 0;
        while i < def.entries.len()
            invariant
                0 <= i <= def.entries@.len(),
                wanted@ == def.wanted().take(i as int),
            decreases def.entries@.len() - i,
        {
            wanted.push(def.entries[i].hotkey);
            i = i + 1;
            assert(wanted@ =~= def.wanted().take(i as int));
        }
        assert(wanted@ =~= def.wanted());
        proof {
            lemma_def_error_unfold(*def, pool@);
        }
        let keys = match assign_hotkeys(&wanted, pool) {
            Ok(keys) => keys,
            Err(e) => {
                return Err(e);
            },
        };
        proof {
            lemma_assigned_hotkeys_distinct(def.wanted(), pool@);
        }
        let mut entries: Vec<MenuEntry> = Vec::new();
        let mut n: usize = 0;
        proof {
            reveal(submenus_fine_before);
        }
        while n < def.entries.len()
            invariant
                0 <= n <= def.entries@.len(),
                keys@.len() == def.entries@.len(),
                entries@.len() == n,
                pool@.no_duplicates(),
                assign(def.wanted(), pool@) matches Ok((k, _)) && keys@ == k,
                submenus_fine_before(*def, pool@, n as int),
                0 <= n,
                forall|j: int|
                    0 <= j < n ==> {
                        &&& (#[trigger] entries@[j]).hotkey == keys@[j]
                        &&& entries@[j].message@ == def.entries@[j].message@
                        &&& action_built_from(entries@[j].action, def.entries@[j].action, pool@)
                        &&& (entries@[j].action matches MenuAction::SubMenu(c) ==> c.wf())
                    },
            decreases def.entries@.len() - n,
        {
            let e = &def.entries[n];
            proof {
                lemma_submenus_fine_step(*def, pool@, n as int);
            }
            let action = match build_action(&e.action, pool) {
                Ok(a) => a,
                Err(err) => {
                    proof {
                        lemma_def_error_unfold(*def, pool@);
                    }
                    return Err(err);
                },
            };
            let ghost old_entries = entries@;
            let entry = MenuEntry { hotkey: keys[n], message: e.message.clone(), action };
            entries.push(entry);
            proof {
                vstd::seq::axiom_seq_push_len(old_entries, entry);
                vstd::seq::axiom_seq_push_index_same(old_entries, entry, n as int);
                assert forall|j: int| 0 <= j < n implies entries@[j] == old_entries[j] by {
                    vstd::seq::axiom_seq_push_index_different(old_entries, entry, j);
                }
            }
            n = n + 1;
        }
        proof {
            lemma_submenus_fine_end(*def, pool@);
            lemma_def_error_unfold(*def, pool@);
        }
        let m = Menu { title: def.title.clone(), message: def.message.clone(), entries };
        assert(m.hotkeys() =~= keys@);
        assert forall|j: int| 0 <= j < def.entries@.len() implies {
            &&& m.entries@[j].message@ == def.entries@[j].message@
            &&& action_built_from(m.entries@[j].action, def.entries@[j].action, pool@)
        } by {
            assert(m.entries@[j] == entries@[j]);
        }
        assert forall|j: int| 0 <= j < m.entries@.len() implies (#[trigger] m.entries@[j].action matches MenuAction::SubMenu(c) ==> c.wf()) by {
            assert(m.entries@[j] == entries@[j]);
        }
        Ok(m)
    }
}

/// When no entry of a menu definition asks for a hotkey and it has more
/// entries than the pool holds, building it fails for want of hotkeys.
pub proof fn lemma_def_pool_exhausted(d: MenuDef, pool: Seq<char>)
    requires
        forall|i: int| 0 <= i < d.entries@.len() ==> (#[trigger] d.entries@[i]).hotkey is None,
        d.entries@.len() > pool.len(),
    ensures
        def_error(d, pool) == Some(MenuError::HotkeyPoolExhausted),
{
    assert forall|i: int| 0 <= i < d.wanted().len() implies d.wanted()[i] is None by {
        assert(d.entries@[i].hotkey is None);
    }
    lemma_pool_exhausted(d.wanted(), pool);
    lemma_def_error_unfold(d, pool);
}

/// Why a key or a path could not be followed.
#[derive(Debug, Clone, Copy, PartialEq, Eq, Structural)]
pub enum NavError {
    /// A hotkey of the path does not name a submenu at its depth.
    InvalidPath,
    /// No entry of the current menu is bound to the key.
    NoSuchKey,
    /// The key is bound, but not to a submenu.
    NotASubMenu,
}

/// The menu reached from `root` by following `path`, one hotkey per level.
pub open spec fn resolve_path(root: Menu, path: Seq<char>) -> Option<Menu>
    decreases path.len(),
{
    if path.len() == 0 {
        Some(root)
    } else {
        match resolve_path(root, path.drop_last()) {
            Some(m) => match m.lookup(path.last()) {
                Some(MenuAction::SubMenu(c)) => Some(c),
                _ => None,
            },
            None => None,
        }
    }
}

impl Menu {
    /// Follows `path` from this menu, one hotkey per level.
    pub fn resolve(&self, path: &Vec<char>) -> (r: Result<&Menu, NavError>)
        ensures
            r is Ok <==> resolve_path(*self, path@) is Some,
            r matches Ok(m) ==> resolve_path(*self, path@) == Some(*m),
            r matches Err(e) ==> e == NavError::InvalidPath,
    {
        let mut current: &Menu = self;
        let mut i: usize = 0;
        while i < path.len()
            invariant
                0 <= i <= path@.len(),
                resolve_path(*self, path@.take(i as int)) == Some(*current),
            decreases path@.len() - i,
        {
            assert(path@.take(i as int + 1).drop_last() =~= path@.take(i as int));
            match current.get_action(path[i]) {
                Some(MenuAction::SubMenu(m)) => {
                    current = m;
                },
                _ => {
                    proof {
                        lemma_unresolved_extends(*self, path@, i as int + 1);
                    }
                    return Err(NavError::InvalidPath);
                },
            }
            i = i + 1;
        }
        assert(path@.take(i as int) =~= path@);
        Ok(current)
    }
}

proof fn lemma_unresolved_extends(root: Menu, path: Seq<char>, n: int)
    requires
        0 <= n <= path.len(),
        resolve_path(root, path.take(n)) is None,
    ensures
        resolve_path(root, path) is None,
    decreases path.len() - n,
{
    if n < path.len() {
        assert(path.take(n + 1).drop_last() =~= path.take(n));
        lemma_unresolved_extends(root, path, n + 1);
    } else {
        assert(path.take(n) =~= path);
    }
}

/// The tag shown beside an entry: submenus are marked, other entries get blanks.
pub open spec fn action_tag(a: MenuAction) -> Seq<char> {
    match a {
        MenuAction::SubMenu(_) => seq!['[', 'M', ']'],
        _ => seq![' ', ' ', ' '],
    }
}

/// How an entry is shown: `(k) - tag - message`.
pub open spec fn entry_text(e: MenuEntry) -> Seq<char> {
    seq!['('] + seq![e.hotkey] + seq![')', ' ', '-', ' '] + action_tag(e.action) + seq![' ', '-', ' ']
        + e.message@
}

/// The entry lines of a menu, each indented by two blanks and ended by a newline.
pub open spec fn entries_text(es: Seq<MenuEntry>) -> Seq<char>
    decreases es.len(),
{
    if es.len() == 0 {
        Seq::empty()
    } else {
        entries_text(es.drop_last()) + seq![' ', ' '] + entry_text(es.last()) + seq!['\n']
    }
}

/// How a menu is shown: title, message, then one line per entry.
pub open spec fn menu_text(m: Menu) -> Seq<char> {
    seq![' ', ' '] + m.title@ + seq!['\n', '\n', ' ', ' '] + m.message@ + seq!['\n', '\n']
        + entries_text(m.entries@)
}

fn append_chars(s: &mut String, cs: &Vec<char>)
    ensures
        final(s)@ == old(s)@ + cs@,
{
    let mut i: usize = 0;
    while i < cs.len()
        invariant
            0 <= i <= cs@.len(),
            s@ == old(s)@ + cs@.take(i as int),
        decreases cs@.len() - i,
    {
        push_char(s, cs[i]);
        i = i + 1;
        assert(s@ =~= old(s)@ + cs@.take(i as int));
    }
    assert(cs@.take(i as int) =~= cs@);
}

fn append_string(s: &mut String, t: &String)
    ensures
        final(s)@ == old(s)@ + t@,
{
    s.append(t.as_str());
}

impl MenuEntry {
    /// The line that shows this entry.
    pub fn to_text(&self) -> (r: String)
        ensures
            r@ == entry_text(*self),
    {
        let mut r = String::new();
        append_chars(&mut r, &vec!['(', self.hotkey, ')', ' ', '-', ' ']);
        match &self.action {
            MenuAction::SubMenu(_) => append_chars(&mut r, &vec!['[', 'M', ']']),
            _ => append_chars(&mut r, &vec![' ', ' ', ' ']),
        }
        append_chars(&mut r, &vec![' ', '-', ' ']);
        append_string(&mut r, &self.message);
        assert(r@ =~= entry_text(*self));
        r
    }
}

impl Menu {
    /// The text that shows this menu.
    pub fn to_text(&self) -> (r: String)
        ensures
            r@ == menu_text(*self),
    {
        let mut r = String::new();
        append_chars(&mut r, &vec![' ', ' ']);
        append_string(&mut r, &self.title);
        append_chars(&mut r, &vec!['\n', '\n', ' ', ' ']);
        append_string(&mut r, &self.message);
        append_chars(&mut r, &vec!['\n', '\n']);
        let ghost head = r@;
        let mut i: usize = 0;
        while i < self.entries.len()
            invariant
                0 <= i <= self.entries@.len(),
                r@ == head + entries_text(self.entries@.take(i as int)),
            decreases self.entries@.len() - i,
        {
            append_chars(&mut r, &vec![' ', ' ']);
            let line = self.entries[i].to_text();
            append_string(&mut r, &line);
            append_chars(&mut r, &vec!['\n']);
            assert(self.entries@.take(i as int + 1).drop_last() =~= self.entries@.take(i as int));
            i = i + 1;
            assert(r@ =~= head + entries_text(self.entries@.take(i as int)));
        }
        assert(self.entries@.take(i as int) =~= self.entries@);
        assert(r@ =~= menu_text(*self));
        r
    }
}

/// A path into a menu tree: the hotkeys pressed from the root, oldest first.
#[derive(Debug, Default)]
pub struct MenuStack(pub Vec<char>);

impl View for MenuStack {
    type V = Seq<char>;

    open spec fn view(&self) -> Seq<char> {
        self.0@
    }
}

/// How a path is shown: its hotkeys joined by ` -> `.
pub open spec fn path_text(path: Seq<char>) -> Seq<char>
    decreases path.len(),
{
    if path.len() == 0 {
        Seq::empty()
    } else if path.len() == 1 {
        seq![path[0]]
    } else {
        path_text(path.drop_last()) + seq![' ', '-', '>', ' '] + seq![path.last()]
    }
}

impl MenuStack {
    /// The empty path, which names the root.
    pub fn new() -> (r: MenuStack)
        ensures
            r@ == Seq::<char>::empty(),
    {
        MenuStack(Vec::new())
    }

    pub fn len(&self) -> (r: usize)
        ensures
            r == self@.len(),
    {
        self.0.len()
    }

    pub fn push(&mut self, key: char)
        ensures
            final(self)@ == old(self)@.push(key),
    {
        self.0.push(key);
    }

    /// Removes and returns the newest hotkey; `None` at the root.
    pub fn pop(&mut self) -> (r: Option<char>)
        ensures
            old(self)@.len() == 0 ==> r is None && final(self)@ == old(self)@,
            old(self)@.len() > 0 ==> r == Some(old(self)@.last()) && final(self)@
                == old(self)@.drop_last(),
    {
        self.0.pop()
    }

    /// The path as text, such as `a -> b -> c`.
    pub fn to_text(&self) -> (r: String)
        ensures
            r@ == path_text(self@),
    {
        let mut r = String::new();
        let mut i: usize = 0;
        while i < self.0.len()
            invariant
                0 <= i <= self@.len(),
                r@ == path_text(self@.take(i as int)),
            decreases self@.len() - i,
        {
            assert(self@.take(i as int + 1).drop_last() =~= self@.take(i as int));
            if i > 0 {
                append_chars(&mut r, &vec![' ', '-', '>', ' ']);
            }
            push_char(&mut r, self.0[i]);
            i = i + 1;
            assert(r@ =~= path_text(self@.take(i as int)));
        }
        assert(self@.take(i as int) =~= self@);
        r
    }
}

} // verus!
