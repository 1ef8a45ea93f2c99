//! Name tables: what the transpiler calls variables, variable bits, enums,
//! params, scripts and components.
use crate::vars::{domain_id, VarDomain};
use vstd::prelude::*;

verus! {

broadcast use vstd::string::group_string_axioms;

/// The name given to `key` by the first entry of `s` that has it.
pub open spec fn name_lookup(s: Seq<(u64, String)>, key: u64) -> Option<Seq<char>>
    decreases s.len(),
{
    if s.len() == 0 {
        None
    } else if s[0].0 == key {
        Some(s[0].1@)
    } else {
        name_lookup(s.drop_first(), key)
    }
}

/// A map from integer keys to names, each key at most once.
#[derive(Debug, Clone)]
pub struct NameTable {
    pub entries: Vec<(u64, String)>,
}

impl NameTable {
    /// The name of `key`, if any.
    pub open spec fn get_spec(&self, key: u64) -> Option<Seq<char>> {
        name_lookup(self.entries@, key)
    }

    /// An empty table.
    pub fn new() -> (r: NameTable)
        ensures
            forall|k: u64| r.get_spec(k) is None,
    {
        NameTable { entries: Vec::new() }
    }

    /// The name of `key`, if any.
    pub fn get(&self, key: u64) -> (r: Option<&String>)
        ensures
            match r {
                Some(n) => self.get_spec(key) == Some(n@),
                None => self.get_spec(key) is None,
            },
    {
        let mut i: usize = 0;
        proof {
            assert(self.entries@.skip(0) =~= self.entries@);
        }
        while i < self.entries.len()
            invariant
                i <= self.entries@.len(),
                name_lookup(self.entries@, key) == name_lookup(self.entries@.skip(i as int), key),
            decreases self.entries@.len() - i,
        {
            proof {
                assert(self.entries@.skip(i as int).drop_first() =~= self.entries@.skip(i + 1));
            }
            if self.entries[i].0 == key {
                return Some(&self.entries[i].1);
            }
            i = i + 1;
        }
        None
    }

    /// Names `key` as `name`; other keys keep their names.
    pub fn insert(&mut self, key: u64, name: String)
        ensures
            final(self).get_spec(key) == Some(name@),
            forall|k: u64| k != key ==> final(self).get_spec(k) == old(self).get_spec(k),
    {
        let ghost n = name@;
        let mut i: usize = 0;
        proof {
            assert(self.entries@.skip(0) =~= self.entries@);
        }
        while i < self.entries.len()
            invariant
                i <= self.entries@.len(),
                self.entries@ == old(self).entries@,
                forall|j: int| 0 <= j < i ==> self.entries@[j].0 != key,
            decreases self.entries@.len() - i,
        {
            if self.entries[i].0 == key {
                let ghost before = self.entries@;
                self.entries.set(i, (key, name));
                proof {
                    lemma_lookup_set(before, i as int, key, self.entries@[i as int].1);
                }
                return;
            }
            i = i + 1;
        }
        let ghost before = self.entries@;
        self.entries.push((key, name));
        proof {
            lemma_lookup_push(before, key, self.entries@.last().1);
        }
    }
}

proof fn lemma_lookup_set(s: Seq<(u64, String)>, i: int, key: u64, v: String)
    requires
        0 <= i < s.len(),
        s[i].0 == key,
        forall|j: int| 0 <= j < i ==> s[j].0 != key,
    ensures
        name_lookup(s.update(i, (key, v)), key) == Some(v@),
        forall|k: u64| k != key ==> name_lookup(s.update(i, (key, v)), k) == name_lookup(s, k),
    decreases s.len(),
{
    let t = s.update(i, (key, v));
    if i > 0 {
        assert(t.drop_first() =~= s.drop_first().update(i - 1, (key, v)));
        lemma_lookup_set(s.drop_first(), i - 1, key, v);
        assert(t[0] == s[0]);
        assert forall|k: u64| k != key implies name_lookup(t, k) == name_lookup(s, k) by {
            if s[0].0 != k {
                assert(name_lookup(t, k) == name_lookup(t.drop_first(), k));
                assert(name_lookup(s, k) == name_lookup(s.drop_first(), k));
            }
        }
    } else {
        assert forall|k: u64| k != key implies name_lookup(t, k) == name_lookup(s, k) by {
            assert(t.drop_first() =~= s.drop_first());
            assert(name_lookup(t, k) == name_lookup(t.drop_first(), k));
            assert(name_lookup(s, k) == name_lookup(s.drop_first(), k));
        }
    }
}

proof fn lemma_lookup_push(s: Seq<(u64, String)>, key: u64, v: String)
    requires
        forall|j: int| 0 <= j < s.len() ==> s[j].0 != key,
    ensures
        name_lookup(s.push((key, v)), key) == Some(v@),
        forall|k: u64| k != key ==> name_lookup(s.push((key, v)), k) == name_lookup(s, k),
    decreases s.len(),
{
    let t = s.push((key, v));
    if s.len() > 0 {
        assert(t.drop_first() =~= s.drop_first().push((key, v)));
        lemma_lookup_push(s.drop_first(), key, v);
        assert(t[0] == s[0]);
        assert forall|k: u64| k != key implies name_lookup(t, k) == name_lookup(s, k) by {
            if s[0].0 != k {
                assert(name_lookup(t, k) == name_lookup(t.drop_first(), k));
                assert(name_lookup(s, k) == name_lookup(s.drop_first(), k));
            }
        }
    } else {
        assert(t.drop_first() =~= Seq::<(u64, String)>::empty());
        assert forall|k: u64| k != key implies name_lookup(t, k) == name_lookup(s, k) by {
            assert(name_lookup(t, k) == name_lookup(t.drop_first(), k));
        }
    }
}

/// The key of a variable: its domain and id in one number.
pub open spec fn var_key(domain: VarDomain, id: u16) -> u64 {
    ((domain_id(domain) as int) * 65536 + id as int) as u64
}

/// The key of a variable: its domain and id in one number.
pub fn var_key_of(domain: VarDomain, id: u16) -> (r: u64)
    ensures
        r == var_key(domain, id),
{
    (domain.id() as u64) * 65536 + id as u64
}

/// The names the transpiler knows.
#[derive(Debug, Clone)]
pub struct SymbolTable {
    /// Variable names by `var_key`.
    pub var_map: NameTable,
    pub varbit_map: NameTable,
    pub enum_map: NameTable,
    pub param_map: NameTable,
    /// Script names by packed id (as an unsigned 32-bit value).
    pub script_names: NameTable,
    /// Interface component names by component id.
    pub component_names: NameTable,
    /// Qualified enum value names (`Enum_1234.ATTACK`) by value.
    pub enum_value_names: NameTable,
}

impl SymbolTable {
    /// A table with no names.
    pub fn new() -> (r: SymbolTable)
        ensures
            forall|k: u64| r.var_map.get_spec(k) is None,
            forall|k: u64| r.varbit_map.get_spec(k) is None,
            forall|k: u64| r.enum_map.get_spec(k) is None,
            forall|k: u64| r.param_map.get_spec(k) is None,
            forall|k: u64| r.script_names.get_spec(k) is None,
            forall|k: u64| r.component_names.get_spec(k) is None,
            forall|k: u64| r.enum_value_names.get_spec(k) is None,
    {
        SymbolTable {
            var_map: NameTable::new(),
            varbit_map: NameTable::new(),
            enum_map: NameTable::new(),
            param_map: NameTable::new(),
            script_names: NameTable::new(),
            component_names: NameTable::new(),
            enum_value_names: NameTable::new(),
        }
    }

    /// Adds variable names: each entry is a domain, an id and a name (ids
    /// are kept to their low 16 bits).
    pub fn with_vars(self, vars: &Vec<(VarDomain, u32, String)>) -> (r: SymbolTable)
        ensures
            r.varbit_map == self.varbit_map,
            forall|i: int|
                #![trigger vars@[i]]
                0 <= i < vars@.len() && (forall|j: int|
                    i < j < vars@.len() ==> var_key(vars@[j].0, vars@[j].1 as u16) != var_key(
                        vars@[i].0,
                        vars@[i].1 as u16,
                    )) ==> r.var_map.get_spec(var_key(vars@[i].0, vars@[i].1 as u16)) == Some(
                    vars@[i].2@,
                ),
    {
        let mut t = self;
        let mut i: usize = 0;
        while i < vars.len()
            invariant
                i <= vars@.len(),
                t.varbit_map == self.varbit_map,
                forall|m: int|
                    #![trigger vars@[m]]
                    0 <= m < i && (forall|j: int|
                        m < j < i ==> var_key(vars@[j].0, vars@[j].1 as u16) != var_key(
                            vars@[m].0,
                            vars@[m].1 as u16,
                        )) ==> t.var_map.get_spec(var_key(vars@[m].0, vars@[m].1 as u16)) == Some(
                        vars@[m].2@,
                    ),
            decreases vars@.len() - i,
        {
            let (d, id, n) = (vars[i].0, vars[i].1, vars[i].2.clone());
            let key = var_key_of(d, id as u16);
            t.var_map.insert(key, n);
            i = i + 1;
        }
        t
    }

    /// The name of a variable, if known.
    pub fn var_name(&self, domain: VarDomain, id: u16) -> (r: Option<&String>)
        ensures
            match r {
                Some(n) => self.var_map.get_spec(var_key(domain, id)) == Some(n@),
                None => self.var_map.get_spec(var_key(domain, id)) is None,
            },
    {
        self.var_map.get(var_key_of(domain, id))
    }

    /// The name of a variable bit, if known.
    pub fn varbit_name(&self, id: u16) -> (r: Option<&String>)
        ensures
            match r {
                Some(n) => self.varbit_map.get_spec(id as u64) == Some(n@),
                None => self.varbit_map.get_spec(id as u64) is None,
            },
    {
        self.varbit_map.get(id as u64)
    }
}

} // verus!
