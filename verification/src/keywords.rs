//! The keyword/alias registry: a single source of truth mapping alias
//! names to canonical keywords. It is built once at program start as an
//! explicit value and passed by reference wherever aliases are resolved;
//! there is no process-wide mutable state.

use vstd::map::*;
use vstd::prelude::*;
use vstd::seq::axiom_seq_index_decreases;
use vstd::seq::axiom_seq_subrange_decreases;

use crate::text::str_eq;

verus! {

/// The category a keyword belongs to.
#[derive(Debug, Clone, Copy, PartialEq, Eq, Hash, Structural)]
pub enum KeywordType {
    Function,
    Control,
    Statement,
    Operator,
}

/// A canonical keyword: its name, category, and description.
#[derive(Debug)]
pub struct Keyword {
    pub original_name: String,
    pub keyword_type: KeywordType,
    pub description: String,
}

impl Keyword {
    /// The abstraction of a keyword.
    pub open spec fn model(self) -> (Seq<char>, KeywordType, Seq<char>) {
        (self.original_name@, self.keyword_type, self.description@)
    }
}

impl Clone for Keyword {
    /// Cloning preserves the abstraction.
    fn clone(&self) -> (res: Self)
        ensures
            res.model() == self.model(),
    {
        Keyword {
            original_name: self.original_name.clone(),
            keyword_type: self.keyword_type,
            description: self.description.clone(),
        }
    }
}

/// One keyword with its aliases, as it appears in a configuration.
#[derive(Debug)]
pub struct KeywordDefinition {
    pub original_name: String,
    pub keyword_type: KeywordType,
    pub description: String,
    pub aliases: Vec<String>,
}

/// A whole keyword configuration.
#[derive(Debug)]
pub struct KeywordConfig {
    pub keywords: Vec<KeywordDefinition>,
}

/// The abstraction of an alias table as a map from alias text to the
/// keyword's abstraction; a later entry for the same alias wins.
pub open spec fn alias_map(es: Seq<(String, Keyword)>) -> Map<
    Seq<char>,
    (Seq<char>, KeywordType, Seq<char>),
>
    decreases es,
{
    if es.len() == 0 {
        Map::empty()
    } else {
        proof {
            axiom_seq_subrange_decreases::<(String, Keyword)>(es, 0, es.len() - 1);
            axiom_seq_index_decreases::<(String, Keyword)>(es, es.len() - 1);
        }
        alias_map(es.drop_last()).insert(es.last().0@, es.last().1.model())
    }
}

/// An alias is in the table's abstraction exactly when some entry
/// carries it.
pub broadcast proof fn lemma_alias_map_dom(es: Seq<(String, Keyword)>, k: Seq<char>)
    ensures
        #[trigger] alias_map(es).dom().contains(k) <==> (exists|i: int|
            0 <= i < es.len() && (#[trigger] es[i].0@) == k),
    decreases es,
{
    if es.len() > 0 {
        lemma_alias_map_dom(es.drop_last(), k);
        assert forall|i: int| 0 <= i < es.len() && (#[trigger] es[i].0@) == k
            implies alias_map(es).dom().contains(k) by {
            if i < es.len() - 1 {
                assert(es.drop_last()[i] == es[i]);
                assert(es.drop_last()[i].0@ == k);
            } else {
                assert(es.last().0@ == k);
            }
        }
        if alias_map(es).dom().contains(k) && k != es.last().0@ {
            let i = choose|i: int|
                0 <= i < es.drop_last().len() && (#[trigger] es.drop_last()[i].0@) == k;
            assert(es.drop_last()[i] == es[i]);
            assert(es[i].0@ == k);
        }
    }
}

/// Under unique aliases, the abstraction sends each entry's alias to its
/// keyword.
pub proof fn lemma_alias_map_index(es: Seq<(String, Keyword)>, i: int)
    requires
        forall|p: int, q: int| 0 <= p < q < es.len()
            ==> (#[trigger] es[p].0@) != (#[trigger] es[q].0@),
        0 <= i < es.len(),
    ensures
        alias_map(es).dom().contains(es[i].0@),
        alias_map(es)[es[i].0@] == es[i].1.model(),
    decreases es,
{
    lemma_alias_map_dom(es, es[i].0@);
    if i < es.len() - 1 {
        assert forall|p: int, q: int| 0 <= p < q < es.drop_last().len()
            implies (#[trigger] es.drop_last()[p].0@) != (#[trigger] es.drop_last()[q].0@) by {
            assert(es.drop_last()[p] == es[p]);
            assert(es.drop_last()[q] == es[q]);
        }
        lemma_alias_map_index(es.drop_last(), i);
        assert(es.drop_last()[i] == es[i]);
        assert(es[es.len() - 1].0@ != es[i].0@);
    }
}

/// The registry mapping aliases to canonical keywords.
pub struct KeywordRegistry {
    entries: Vec<(String, Keyword)>,
}

impl KeywordRegistry {
    /// The abstraction of this registry.
    pub closed spec fn model(self) -> Map<Seq<char>, (Seq<char>, KeywordType, Seq<char>)> {
        alias_map(self.entries@)
    }

    /// Well-formedness: aliases are unique.
    pub closed spec fn wf(self) -> bool {
        forall|p: int, q: int| 0 <= p < q < self.entries@.len()
            ==> (#[trigger] self.entries@[p].0@) != (#[trigger] self.entries@[q].0@)
    }

    /// The entries, for walking all registered aliases in order.
    pub closed spec fn entry_models(self) -> Seq<(Seq<char>, (Seq<char>, KeywordType, Seq<char>))> {
        Seq::new(self.entries@.len(), |i: int| (self.entries@[i].0@, self.entries@[i].1.model()))
    }

    /// An empty registry.
    pub fn new() -> (r: KeywordRegistry)
        ensures
            r.wf(),
            r.model() == Map::<Seq<char>, (Seq<char>, KeywordType, Seq<char>)>::empty(),
            r.entry_models() == Seq::<(Seq<char>, (Seq<char>, KeywordType, Seq<char>))>::empty(),
    {
        let r = KeywordRegistry { entries: Vec::new() };
        proof {
            assert(r.entry_models() =~= Seq::<(
                Seq<char>,
                (Seq<char>, KeywordType, Seq<char>),
            )>::empty());
        }
        r
    }

    /// Adds or replaces one alias binding.
    #[verifier::loop_isolation(false)]
    pub fn bind(&mut self, alias: String, keyword: Keyword)
        requires
            old(self).wf(),
        ensures
            final(self).wf(),
            final(self).model() == old(self).model().insert(alias@, keyword.model()),
    {
        let ghost ga = alias@;
        let ghost gk = keyword.model();
        proof {
            lemma_alias_map_dom(self.entries@, ga);
        }
        let mut i: usize = 0;
        while i < self.entries.len()
            invariant
                *self == *old(self),
                i <= self.entries@.len(),
                forall|j: int| 0 <= j < i ==> (#[trigger] self.entries@[j].0@) != ga,
            decreases self.entries@.len() - i,
        {
            if str_eq(self.entries[i].0.as_str(), alias.as_str()) {
                let ghost before = self.entries@;
                self.entries.set(i, (alias, keyword));
                proof {
                    assert(forall|p: int, q: int| 0 <= p < q < before.len()
                        ==> (#[trigger] before[p].0@) != (#[trigger] before[q].0@));
                    assert(self.entries@[i as int].0@ == before[i as int].0@);
                    lemma_bind_replace(before, self.entries@, i as int);
                    assert(self.entries@[i as int].0@ == ga);
                    assert(self.entries@[i as int].1.model() == gk);
                }
                return ;
            }
            i += 1;
        }
        let ghost before = self.entries@;
        self.entries.push((alias, keyword));
        proof {
            assert(self.entries@.drop_last() =~= before);
            assert(self.entries@.last().0@ == ga);
            assert(self.entries@.last().1.model() == gk);
            assert forall|p: int, q: int| 0 <= p < q < self.entries@.len()
                implies (#[trigger] self.entries@[p].0@) != (#[trigger] self.entries@[q].0@) by {
                if q < self.entries@.len() - 1 {
                    assert(before[p] == self.entries@[p]);
                    assert(before[q] == self.entries@[q]);
                } else {
                    assert(before[p] == self.entries@[p]);
                    assert(before[p].0@ != ga);
                }
            }
        }
    }

    /// Looks an alias up.
    #[verifier::loop_isolation(false)]
    pub fn lookup(&self, alias: &str) -> (r: Option<&Keyword>)
        requires
            self.wf(),
        ensures
            match r {
                Some(kw) => self.model().dom().contains(alias@)
                    && kw.model() == self.model()[alias@],
                None => !self.model().dom().contains(alias@),
            },
    {
        proof {
            lemma_alias_map_dom(self.entries@, alias@);
        }
        let mut i: usize = 0;
        while i < self.entries.len()
            invariant
                i <= self.entries@.len(),
                forall|j: int| 0 <= j < i ==> (#[trigger] self.entries@[j].0@) != alias@,
            decreases self.entries@.len() - i,
        {
            if str_eq(self.entries[i].0.as_str(), alias) {
                proof {
                    lemma_alias_map_index(self.entries@, i as int);
                }
                return Some(&self.entries[i].1);
            }
            i += 1;
        }
        None
    }
}

/// Overwriting the entry that already carries the alias realises an
/// insert on the abstraction.
proof fn lemma_bind_replace(
    before: Seq<(String, Keyword)>,
    after: Seq<(String, Keyword)>,
    i: int,
)
    requires
        forall|p: int, q: int| 0 <= p < q < before.len()
            ==> (#[trigger] before[p].0@) != (#[trigger] before[q].0@),
        0 <= i < before.len(),
        after.len() == before.len(),
        forall|j: int| 0 <= j < before.len() && j != i ==> #[trigger] after[j] == before[j],
        after[i].0@ == before[i].0@,
    ensures
        forall|p: int, q: int| 0 <= p < q < after.len()
            ==> (#[trigger] after[p].0@) != (#[trigger] after[q].0@),
        alias_map(after) == alias_map(before).insert(after[i].0@, after[i].1.model()),
    decreases before,
{
    assert forall|p: int, q: int| 0 <= p < q < after.len()
        implies (#[trigger] after[p].0@) != (#[trigger] after[q].0@) by {
        assert(after[p].0@ == before[p].0@);
        assert(after[q].0@ == before[q].0@);
    }
    let ma = alias_map(after);
    let mb = alias_map(before).insert(after[i].0@, after[i].1.model());
    assert forall|k: Seq<char>| ma.dom().contains(k) implies mb.dom().contains(k) && ma[k]
        == mb[k] by {
        lemma_alias_map_dom(after, k);
        let p = choose|p: int| 0 <= p < after.len() && (#[trigger] after[p].0@) == k;
        lemma_alias_map_index(after, p);
        lemma_alias_map_dom(before, k);
        assert(before[p].0@ == k);
        if p != i {
            lemma_alias_map_index(before, p);
            assert(before[p].0@ != before[i].0@);
        }
    }
    assert forall|k: Seq<char>| mb.dom().contains(k) implies ma.dom().contains(k) by {
        if k == after[i].0@ {
            lemma_alias_map_dom(after, k);
        } else {
            lemma_alias_map_dom(before, k);
            let p = choose|p: int| 0 <= p < before.len() && (#[trigger] before[p].0@) == k;
            lemma_alias_map_dom(after, k);
            assert(after[p].0@ == k);
        }
    }
    assert_maps_equal!(ma, mb, k => {
        if ma.dom().contains(k) {
            lemma_alias_map_dom(after, k);
            let p = choose|p: int| 0 <= p < after.len() && (#[trigger] after[p].0@) == k;
            lemma_alias_map_index(after, p);
            lemma_alias_map_dom(before, k);
            assert(before[p].0@ == k);
            if p != i {
                lemma_alias_map_index(before, p);
                assert(before[p].0@ != before[i].0@);
            }
        }
    });
}

/// Registers a keyword under its canonical name and all of its aliases.
#[verifier::loop_isolation(false)]
pub fn register_keyword_internal(
    registry: &mut KeywordRegistry,
    original_name: &str,
    keyword_type: KeywordType,
    description: &str,
    aliases: &Vec<String>,
)
    requires
        old(registry).wf(),
    ensures
        final(registry).wf(),
        final(registry).model() == register_spec(
            old(registry).model(),
            original_name@,
            keyword_type,
            description@,
            crate::host::texts(aliases@),
        ),
{
    let kw = Keyword {
        original_name: String::from_str(original_name),
        keyword_type,
        description: String::from_str(description),
    };
    registry.bind(String::from_str(original_name), kw.clone());
    let ghost base = registry.model();
    let mut i: usize = 0;
    while i < aliases.len()
        invariant
            i <= aliases@.len(),
            registry.wf(),
            kw.model() == (original_name@, keyword_type, description@),
            registry.model() == bind_aliases(base, crate::host::texts(aliases@).take(i as int),
                original_name@, kw.model()),
        decreases aliases@.len() - i,
    {
        let ghost pre = registry.model();
        if !str_eq(aliases[i].as_str(), original_name) {
            registry.bind(aliases[i].clone(), kw.clone());
        }
        proof {
            let ts = crate::host::texts(aliases@);
            assert(ts.take(i + 1).drop_last() =~= ts.take(i as int));
            assert(ts.take(i + 1).last() == aliases@[i as int]@);
        }
        i += 1;
    }
    proof {
        assert(crate::host::texts(aliases@).take(aliases@.len() as int)
            =~= crate::host::texts(aliases@));
    }
}

/// Folds alias bindings over a map: each alias other than the canonical
/// name is bound to the keyword.
pub open spec fn bind_aliases(
    m: Map<Seq<char>, (Seq<char>, KeywordType, Seq<char>)>,
    aliases: Seq<Seq<char>>,
    canonical: Seq<char>,
    kw: (Seq<char>, KeywordType, Seq<char>),
) -> Map<Seq<char>, (Seq<char>, KeywordType, Seq<char>)>
    decreases aliases,
{
    if aliases.len() == 0 {
        m
    } else {
        let prev = bind_aliases(m, aliases.drop_last(), canonical, kw);
        if aliases.last() == canonical {
            prev
        } else {
            prev.insert(aliases.last(), kw)
        }
    }
}

/// What registering a keyword does to the registry's abstraction: the
/// canonical name is bound, then every alias other than it.
pub open spec fn register_spec(
    m: Map<Seq<char>, (Seq<char>, KeywordType, Seq<char>)>,
    canonical: Seq<char>,
    kt: KeywordType,
    description: Seq<char>,
    aliases: Seq<Seq<char>>,
) -> Map<Seq<char>, (Seq<char>, KeywordType, Seq<char>)> {
    bind_aliases(
        m.insert(canonical, (canonical, kt, description)),
        aliases,
        canonical,
        (canonical, kt, description),
    )
}

/// Resolves an alias to its canonical keyword, if registered.
pub fn resolve_keyword(registry: &KeywordRegistry, alias: &str) -> (r: Option<Keyword>)
    requires
        registry.wf(),
    ensures
        match r {
            Some(kw) => registry.model().dom().contains(alias@)
                && kw.model() == registry.model()[alias@],
            None => !registry.model().dom().contains(alias@),
        },
{
    match registry.lookup(alias) {
        Some(kw) => Some(kw.clone()),
        None => None,
    }
}

/// The canonical name of a function alias; any other text is returned
/// unchanged.
pub fn resolve_function_name(registry: &KeywordRegistry, alias: &str) -> (r: String)
    requires
        registry.wf(),
    ensures
        r@ == ({
            if registry.model().dom().contains(alias@)
                && registry.model()[alias@].1 == KeywordType::Function {
                registry.model()[alias@].0
            } else {
                alias@
            }
        }),
{
    match resolve_keyword(registry, alias) {
        Some(kw) => {
            if kw.keyword_type == KeywordType::Function {
                kw.original_name
            } else {
                String::from_str(alias)
            }
        },
        None => String::from_str(alias),
    }
}

/// The canonical name of a control-flow alias; any other text is
/// returned unchanged.
pub fn resolve_control_keyword(registry: &KeywordRegistry, alias: &str) -> (r: String)
    requires
        registry.wf(),
    ensures
        r@ == ({
            if registry.model().dom().contains(alias@)
                && registry.model()[alias@].1 == KeywordType::Control {
                registry.model()[alias@].0
            } else {
                alias@
            }
        }),
{
    match resolve_keyword(registry, alias) {
        Some(kw) => {
            if kw.keyword_type == KeywordType::Control {
                kw.original_name
            } else {
                String::from_str(alias)
            }
        },
        None => String::from_str(alias),
    }
}

/// Registers a new keyword under the given aliases (the canonical name
/// itself is bound only when listed among them).
#[verifier::loop_isolation(false)]
pub fn register_keyword(
    registry: &mut KeywordRegistry,
    original_name: &str,
    keyword_type: KeywordType,
    description: &str,
    aliases: &Vec<String>,
) -> (r: Result<(), String>)
    requires
        old(registry).wf(),
    ensures
        final(registry).wf(),
        r is Ok,
        final(registry).model() == bind_all(
            old(registry).model(),
            crate::host::texts(aliases@),
            (original_name@, keyword_type, description@),
        ),
{
    let kw = Keyword {
        original_name: String::from_str(original_name),
        keyword_type,
        description: String::from_str(description),
    };
    let ghost base = registry.model();
    let mut i: usize = 0;
    while i < aliases.len()
        invariant
            i <= aliases@.len(),
            registry.wf(),
            kw.model() == (original_name@, keyword_type, description@),
            registry.model() == bind_all(base, crate::host::texts(aliases@).take(i as int),
                kw.model()),
        decreases aliases@.len() - i,
    {
        registry.bind(aliases[i].clone(), kw.clone());
        proof {
            let ts = crate::host::texts(aliases@);
            assert(ts.take(i + 1).drop_last() =~= ts.take(i as int));
            assert(ts.take(i + 1).last() == aliases@[i as int]@);
        }
        i += 1;
    }
    proof {
        assert(crate::host::texts(aliases@).take(aliases@.len() as int)
            =~= crate::host::texts(aliases@));
    }
    Ok(())
}

/// Folds alias bindings over a map, every alias included.
pub open spec fn bind_all(
    m: Map<Seq<char>, (Seq<char>, KeywordType, Seq<char>)>,
    aliases: Seq<Seq<char>>,
    kw: (Seq<char>, KeywordType, Seq<char>),
) -> Map<Seq<char>, (Seq<char>, KeywordType, Seq<char>)>
    decreases aliases,
{
    if aliases.len() == 0 {
        m
    } else {
        bind_all(m, aliases.drop_last(), kw).insert(aliases.last(), kw)
    }
}

/// All aliases bound to the given canonical name, in registration order.
pub open spec fn aliases_of(
    es: Seq<(Seq<char>, (Seq<char>, KeywordType, Seq<char>))>,
    canonical: Seq<char>,
) -> Seq<Seq<char>>
    decreases es,
{
    if es.len() == 0 {
        Seq::empty()
    } else {
        aliases_of(es.drop_last(), canonical) + (if (es.last().1).0 == canonical {
            seq![es.last().0]
        } else {
            Seq::empty()
        })
    }
}

/// Collects every alias whose keyword's canonical name is the given one.
#[verifier::loop_isolation(false)]
pub fn get_aliases_for(registry: &KeywordRegistry, canonical_name: &str) -> (r: Vec<String>)
    requires
        registry.wf(),
    ensures
        crate::host::texts(r@) == aliases_of(registry.entry_models(), canonical_name@),
{
    let mut out: Vec<String> = Vec::new();
    let names = registry.alias_entries();
    let ghost ems = registry.entry_models();
    let mut i: usize = 0;
    proof {
        assert(crate::host::texts(out@) =~= aliases_of(ems.take(0), canonical_name@));
    }
    while i < names.len()
        invariant
            i <= names@.len(),
            names@.len() == ems.len(),
            forall|j: int| 0 <= j < names@.len() ==> (#[trigger] names@[j]).0@ == ems[j].0,
            forall|j: int| 0 <= j < names@.len() ==> (#[trigger] names@[j]).1@ == (ems[j].1).0,
            crate::host::texts(out@) == aliases_of(ems.take(i as int), canonical_name@),
        decreases names@.len() - i,
    {
        proof {
            assert(names@[i as int].0@ == ems[i as int].0);
            assert(names@[i as int].1@ == (ems[i as int].1).0);
            assert(ems.take(i + 1).drop_last() =~= ems.take(i as int));
            assert(ems.take(i + 1).last() == ems[i as int]);
        }
        if str_eq(names[i].1.as_str(), canonical_name) {
            let ghost outb = out@;
            out.push(names[i].0.clone());
            proof {
                assert((ems[i as int].1).0 == canonical_name@);
                assert(aliases_of(ems.take(i + 1), canonical_name@)
                    == aliases_of(ems.take(i as int), canonical_name@) + seq![ems[i as int].0]);
                assert forall|j: int| 0 <= j < out@.len()
                    implies crate::host::texts(out@)[j] == aliases_of(ems.take(i + 1),
                        canonical_name@)[j] by {
                    if j < outb.len() {
                        assert(out@[j] == outb[j]);
                        assert(crate::host::texts(outb)[j] == outb[j]@);
                    } else {
                        assert(out@[j]@ == ems[i as int].0);
                    }
                }
                assert(crate::host::texts(out@) =~= aliases_of(ems.take(i + 1), canonical_name@));
            }
        } else {
            proof {
                assert((ems[i as int].1).0 != canonical_name@);
                assert(aliases_of(ems.take(i + 1), canonical_name@)
                    =~= aliases_of(ems.take(i as int), canonical_name@));
            }
        }
        i += 1;
    }
    proof {
        assert(ems.take(ems.len() as int) =~= ems);
    }
    out
}

impl KeywordRegistry {
    /// Every alias with its keyword's canonical name, in order.
    #[verifier::loop_isolation(false)]
    pub fn alias_entries(&self) -> (r: Vec<(String, String)>)
        ensures
            r@.len() == self.entry_models().len(),
            forall|j: int| 0 <= j < r@.len() ==> (#[trigger] r@[j]).0@ == self.entry_models()[j].0,
            forall|j: int| 0 <= j < r@.len()
                ==> (#[trigger] r@[j]).1@ == (self.entry_models()[j].1).0,
    {
        let mut out: Vec<(String, String)> = Vec::new();
        let mut i: usize = 0;
        while i < self.entries.len()
            invariant
                i <= self.entries@.len(),
                out@.len() == i,
                forall|j: int| 0 <= j < i ==> (#[trigger] out@[j]).0@ == self.entry_models()[j].0,
                forall|j: int| 0 <= j < i
                    ==> (#[trigger] out@[j]).1@ == (self.entry_models()[j].1).0,
            decreases self.entries@.len() - i,
        {
            out.push((self.entries[i].0.clone(), self.entries[i].1.original_name.clone()));
            i += 1;
        }
        out
    }
}

/// The canonical names of the given category, in first-appearance order,
/// each listed once.
pub open spec fn canonicals_of(
    es: Seq<(Seq<char>, (Seq<char>, KeywordType, Seq<char>))>,
    kt: KeywordType,
) -> Seq<Seq<char>>
    decreases es,
{
    if es.len() == 0 {
        Seq::empty()
    } else {
        let prev = canonicals_of(es.drop_last(), kt);
        if (es.last().1).1 == kt && !prev.contains((es.last().1).0) {
            prev.push((es.last().1).0)
        } else {
            prev
        }
    }
}

impl KeywordRegistry {
    /// Every alias with its keyword's canonical name and category.
    #[verifier::loop_isolation(false)]
    pub fn typed_entries(&self) -> (r: Vec<(String, String, KeywordType)>)
        ensures
            r@.len() == self.entry_models().len(),
            forall|j: int| 0 <= j < r@.len()
                ==> (#[trigger] r@[j]).0@ == self.entry_models()[j].0,
            forall|j: int| 0 <= j < r@.len()
                ==> (#[trigger] r@[j]).1@ == (self.entry_models()[j].1).0,
            forall|j: int| 0 <= j < r@.len()
                ==> (#[trigger] r@[j]).2 == (self.entry_models()[j].1).1,
    {
        let mut out: Vec<(String, String, KeywordType)> = Vec::new();
        let mut i: usize = 0;
        while i < self.entries.len()
            invariant
                i <= self.entries@.len(),
                out@.len() == i,
                forall|j: int| 0 <= j < i ==> (#[trigger] out@[j]).0@ == self.entry_models()[j].0,
                forall|j: int| 0 <= j < i
                    ==> (#[trigger] out@[j]).1@ == (self.entry_models()[j].1).0,
                forall|j: int| 0 <= j < i
                    ==> (#[trigger] out@[j]).2 == (self.entry_models()[j].1).1,
            decreases self.entries@.len() - i,
        {
            out.push((
                self.entries[i].0.clone(),
                self.entries[i].1.original_name.clone(),
                self.entries[i].1.keyword_type,
            ));
            i += 1;
        }
        out
    }
}

/// Lists each canonical keyword of the given category once, with all of
/// its aliases.
#[verifier::loop_isolation(false)]
#[verifier::rlimit(60)]
pub fn list_keywords_by_type(
    registry: &KeywordRegistry,
    keyword_type: KeywordType,
) -> (r: Vec<(String, Vec<String>)>)
    requires
        registry.wf(),
    ensures
        r@.len() == canonicals_of(registry.entry_models(), keyword_type).len(),
        forall|i: int| 0 <= i < r@.len() ==> (#[trigger] r@[i]).0@ == canonicals_of(
            registry.entry_models(),
            keyword_type,
        )[i],
        forall|i: int| 0 <= i < r@.len() ==> crate::host::texts((#[trigger] r@[i]).1@)
            == aliases_of(registry.entry_models(), r@[i].0@),
{
    let entries = registry.typed_entries();
    let ghost ems = registry.entry_models();
    let ghost target = canonicals_of(ems, keyword_type);
    let mut out: Vec<(String, Vec<String>)> = Vec::new();
    let mut i: usize = 0;
    while i < entries.len()
        invariant
            i <= entries@.len(),
            entries@.len() == ems.len(),
            forall|j: int| 0 <= j < entries@.len() ==> (#[trigger] entries@[j]).0@ == ems[j].0,
            forall|j: int| 0 <= j < entries@.len()
                ==> (#[trigger] entries@[j]).1@ == (ems[j].1).0,
            forall|j: int| 0 <= j < entries@.len() ==> (#[trigger] entries@[j]).2 == (ems[j].1).1,
            out@.len() == canonicals_of(ems.take(i as int), keyword_type).len(),
            forall|p: int| 0 <= p < out@.len() ==> (#[trigger] out@[p]).0@ == canonicals_of(
                ems.take(i as int),
                keyword_type,
            )[p],
            forall|p: int| 0 <= p < out@.len() ==> crate::host::texts((#[trigger] out@[p]).1@)
                == aliases_of(ems, out@[p].0@),
        decreases entries@.len() - i,
    {
        proof {
            assert(ems.take(i + 1).drop_last() =~= ems.take(i as int));
            assert(ems.take(i + 1).last() == ems[i as int]);
        }
        let ghost prev = canonicals_of(ems.take(i as int), keyword_type);
        if entries[i].2 == keyword_type {
            let mut present = false;
            let mut p: usize = 0;
            while !present && p < out.len()
                invariant
                    p <= out@.len(),
                    forall|q: int| 0 <= q < p ==> (#[trigger] out@[q]).0@ != entries@[i as int].1@,
                    present ==> p < out@.len() && out@[p as int].0@ == entries@[i as int].1@,
                decreases out@.len() - p + (if present { 0int } else { 1int }),
            {
                if str_eq(out[p].0.as_str(), entries[i].1.as_str()) {
                    present = true;
                } else {
                    p += 1;
                }
            }
            if !present {
                proof {
                    assert forall|q: int| 0 <= q < prev.len()
                        implies (#[trigger] prev[q]) != (ems[i as int].1).0 by {
                        assert(out@[q].0@ == prev[q]);
                        assert(out@[q].0@ != entries@[i as int].1@);
                    }
                    assert(!prev.contains((ems[i as int].1).0));
                }
                let aliases = get_aliases_for(registry, entries[i].1.as_str());
                out.push((entries[i].1.clone(), aliases));
                proof {
                    assert(canonicals_of(ems.take(i + 1), keyword_type)
                        == prev.push((ems[i as int].1).0));
                    assert(out@.last().0@ == (ems[i as int].1).0);
                }
            } else {
                proof {
                    assert(out@[p as int].0@ == prev[p as int]);
                    assert(prev.contains((ems[i as int].1).0));
                    assert(canonicals_of(ems.take(i + 1), keyword_type) == prev);
                }
            }
        } else {
            proof {
                assert(canonicals_of(ems.take(i + 1), keyword_type) == prev);
            }
        }
        i += 1;
    }
    proof {
        assert(ems.take(ems.len() as int) =~= ems);
    }
    out
}

} // verus!
