//! The catalog of scripts: export names, groups and signatures, and the
//! lookups that resolve a call target.
use crate::text::str_eq;
use crate::transpile::ast::ScriptId;
use crate::transpile::diagnostics::Diagnostic;
use crate::transpile::names::ScriptKind;
use vstd::prelude::*;

verus! {

broadcast use vstd::string::group_string_axioms;

/// The guard limits of one transpile run; zero disables a limit.
#[derive(Debug, Clone, Copy)]
pub struct TranspileLimits {
    pub max_script_bytes: usize,
    pub max_instructions: usize,
    pub max_generated_bytes: usize,
}

impl Default for TranspileLimits {
    /// 16 MiB of bytecode, 25 000 instructions and 4 MiB of output.
    fn default() -> (r: Self)
        ensures
            r.max_script_bytes == 16777216,
            r.max_instructions == 25000,
            r.max_generated_bytes == 4194304,
    {
        TranspileLimits {
            max_script_bytes: 16777216,
            max_instructions: 25000,
            max_generated_bytes: 4194304,
        }
    }
}

/// The argument and return counts of a script, per stack, and its return
/// type as written in source.
#[derive(Debug, Clone)]
pub struct ScriptSignature {
    pub arg_count_int: u16,
    pub arg_count_obj: u16,
    pub arg_count_long: u16,
    pub return_count_int: u16,
    pub return_count_obj: u16,
    pub return_count_long: u16,
    pub return_type: String,
}

impl ScriptSignature {
    /// The number of arguments.
    pub fn total_args(&self) -> (r: usize)
        ensures
            r == self.arg_count_int + self.arg_count_obj + self.arg_count_long,
    {
        self.arg_count_int as usize + self.arg_count_obj as usize + self.arg_count_long as usize
    }

    /// The number of returned values.
    pub fn total_returns(&self) -> (r: usize)
        ensures
            r == self.return_count_int + self.return_count_obj + self.return_count_long,
    {
        self.return_count_int as usize + self.return_count_obj as usize
            + self.return_count_long as usize
    }
}

/// The values a script returns, per stack.
#[derive(Debug, Clone, Copy, PartialEq, Eq, Structural)]
pub struct ScriptReturnCounts {
    pub int: u16,
    pub obj: u16,
    pub long: u16,
}

impl ScriptReturnCounts {
    /// All values returned, over the three stacks.
    pub fn total(&self) -> (r: usize)
        ensures
            r == self.int + self.obj + self.long,
    {
        self.int as usize + self.obj as usize + self.long as usize
    }
}

impl Default for ScriptReturnCounts {
    fn default() -> (r: Self)
        ensures
            r == (ScriptReturnCounts { int: 0, obj: 0, long: 0 }),
    {
        ScriptReturnCounts { int: 0, obj: 0, long: 0 }
    }
}

/// The archive group of a script.
#[derive(Debug, Clone, Copy, PartialEq, Eq, Structural, Hash)]
pub struct ScriptGroupId(pub i32);

/// What the catalog knows of one script.
#[derive(Debug, Clone)]
pub struct ScriptMetadata {
    pub packed_id: ScriptId,
    pub group_id: ScriptGroupId,
    pub file_id: u16,
    pub kind: ScriptKind,
    pub raw_name: Option<String>,
    pub short_name: String,
    pub export_name: String,
    pub module_name: String,
    pub signature: ScriptSignature,
}

/// The index of the first entry of `s` for `id`, or `s.len()`.
pub open spec fn entry_index(s: Seq<ScriptMetadata>, id: ScriptId) -> int
    decreases s.len(),
{
    if s.len() == 0 {
        0
    } else if s[0].packed_id == id {
        0
    } else {
        1 + entry_index(s.drop_first(), id)
    }
}

proof fn lemma_entry_index(s: Seq<ScriptMetadata>, id: ScriptId)
    ensures
        0 <= entry_index(s, id) <= s.len(),
        entry_index(s, id) < s.len() ==> s[entry_index(s, id)].packed_id == id,
        forall|j: int| 0 <= j < entry_index(s, id) ==> s[j].packed_id != id,
    decreases s.len(),
{
    if s.len() > 0 && s[0].packed_id != id {
        lemma_entry_index(s.drop_first(), id);
        assert forall|j: int| 0 <= j < entry_index(s, id) implies s[j].packed_id != id by {
            if j > 0 {
                assert(s[j] == s.drop_first()[j - 1]);
            }
        }
    }
}

proof fn lemma_entry_index_unique(s: Seq<ScriptMetadata>, id: ScriptId, i: int)
    requires
        0 <= i <= s.len(),
        i < s.len() ==> s[i].packed_id == id,
        forall|j: int| 0 <= j < i ==> s[j].packed_id != id,
    ensures
        entry_index(s, id) == i,
    decreases s.len(),
{
    if s.len() > 0 && s[0].packed_id != id {
        assert forall|j: int| 0 <= j < i - 1 implies s.drop_first()[j].packed_id != id by {
            assert(s.drop_first()[j] == s[j + 1]);
        }
        lemma_entry_index_unique(s.drop_first(), id, i - 1);
    }
}

/// The index of the entry of group `g` in `s` with the lowest file id, the
/// first of those in insertion order.
pub open spec fn group_best(s: Seq<ScriptMetadata>, g: ScriptGroupId) -> Option<int>
    decreases s.len(),
{
    if s.len() == 0 {
        None
    } else {
        let prev = group_best(s.drop_last(), g);
        let i = s.len() - 1;
        if s[i].group_id == g {
            match prev {
                Some(b) => if s[i].file_id < s[b].file_id {
                    Some(i)
                } else {
                    Some(b)
                },
                None => Some(i),
            }
        } else {
            prev
        }
    }
}

proof fn lemma_group_best(s: Seq<ScriptMetadata>, g: ScriptGroupId)
    ensures
        match group_best(s, g) {
            Some(b) => 0 <= b < s.len() && s[b].group_id == g,
            None => forall|j: int| 0 <= j < s.len() ==> s[j].group_id != g,
        },
    decreases s.len(),
{
    if s.len() > 0 {
        lemma_group_best(s.drop_last(), g);
        assert forall|j: int| 0 <= j < s.len() - 1 implies s.drop_last()[j] == s[j] by {}
    }
}

/// The index of the first entry of `s` exported as `name`, or `s.len()`.
pub open spec fn export_index(s: Seq<ScriptMetadata>, name: Seq<char>) -> int
    decreases s.len(),
{
    if s.len() == 0 {
        0
    } else if s[0].export_name@ == name {
        0
    } else {
        1 + export_index(s.drop_first(), name)
    }
}

proof fn lemma_export_index_unique(s: Seq<ScriptMetadata>, name: Seq<char>, i: int)
    requires
        0 <= i <= s.len(),
        i < s.len() ==> s[i].export_name@ == name,
        forall|j: int| 0 <= j < i ==> s[j].export_name@ != name,
    ensures
        export_index(s, name) == i,
    decreases s.len(),
{
    if s.len() > 0 && s[0].export_name@ != name {
        assert forall|j: int| 0 <= j < i - 1 implies s.drop_first()[j].export_name@ != name by {
            assert(s.drop_first()[j] == s[j + 1]);
        }
        lemma_export_index_unique(s.drop_first(), name, i - 1);
    }
}

/// The catalog of scripts, in insertion order, each packed id once.
#[derive(Debug, Clone)]
pub struct ScriptCatalog {
    pub entries: Vec<ScriptMetadata>,
    pub diagnostics: Vec<Diagnostic>,
}

impl Default for ScriptCatalog {
    /// An empty catalog.
    fn default() -> (r: Self)
        ensures
            r.entries@ == Seq::<ScriptMetadata>::empty(),
            r.diagnostics@ == Seq::<Diagnostic>::empty(),
    {
        ScriptCatalog { entries: Vec::new(), diagnostics: Vec::new() }
    }
}

impl ScriptCatalog {
    /// The entry of `id`, if any.
    pub open spec fn get_spec(&self, id: ScriptId) -> Option<ScriptMetadata> {
        let i = entry_index(self.entries@, id);
        if i < self.entries@.len() {
            Some(self.entries@[i])
        } else {
            None
        }
    }

    /// Adds `metadata`, replacing an entry with the same packed id.
    pub fn insert(&mut self, metadata: ScriptMetadata)
        ensures
            final(self).get_spec(metadata.packed_id) == Some(metadata),
            forall|id: ScriptId| id != metadata.packed_id ==> final(self).get_spec(id) == old(
                self,
            ).get_spec(id),
            final(self).diagnostics == old(self).diagnostics,
    {
        let ghost m = metadata;
        let id = metadata.packed_id;
        let mut i: usize = 0;
        while i < self.entries.len()
            invariant
                i <= self.entries@.len(),
                m == metadata,
                id == m.packed_id,
                self.entries@ == old(self).entries@,
                self.diagnostics == old(self).diagnostics,
                forall|j: int| 0 <= j < i ==> self.entries@[j].packed_id != id,
            decreases self.entries@.len() - i,
        {
            if self.entries[i].packed_id == id {
                let ghost before = self.entries@;
                self.entries.set(i, metadata);
                proof {
                    let after = self.entries@;
                    assert(after[i as int] == m);
                    lemma_entry_index_unique(after, id, i as int);
                    assert forall|other: ScriptId| other != id implies #[trigger] self.get_spec(other)
                        == old(self).get_spec(other) by {
                        lemma_entry_index(before, other);
                        let k = entry_index(before, other);
                        assert forall|j: int| 0 <= j < k implies after[j].packed_id != other by {
                            if j != i {
                                assert(after[j] == before[j]);
                            }
                        }
                        if k < before.len() {
                            assert(k != i);
                            assert(after[k] == before[k]);
                        }
                        lemma_entry_index_unique(after, other, k);
                    }
                }
                return;
            }
            i = i + 1;
        }
        let ghost before = self.entries@;
        self.entries.push(metadata);
        proof {
            let after = self.entries@;
            assert(after[before.len() as int] == m);
            lemma_entry_index_unique(after, id, before.len() as int);
            assert forall|other: ScriptId| other != id implies #[trigger] self.get_spec(other)
                == old(self).get_spec(other) by {
                lemma_entry_index(before, other);
                let k = entry_index(before, other);
                if k < before.len() {
                    assert forall|j: int| 0 <= j < k implies after[j].packed_id != other by {
                        assert(after[j] == before[j]);
                    }
                    assert(after[k] == before[k]);
                    lemma_entry_index_unique(after, other, k);
                } else {
                    assert forall|j: int| 0 <= j < after.len() implies after[j].packed_id != other by {
                        if j < before.len() {
                            assert(after[j] == before[j]);
                        }
                    }
                    lemma_entry_index_unique(after, other, after.len() as int);
                }
            }
        }
    }

    /// The entry of `script_id`, if any.
    pub fn get(&self, script_id: ScriptId) -> (r: Option<&ScriptMetadata>)
        ensures
            match r {
                Some(m) => self.get_spec(script_id) == Some(*m),
                None => self.get_spec(script_id) is None,
            },
    {
        let mut i: usize = 0;
        while i < self.entries.len()
            invariant
                i <= self.entries@.len(),
                forall|j: int| 0 <= j < i ==> self.entries@[j].packed_id != script_id,
            decreases self.entries@.len() - i,
        {
            if self.entries[i].packed_id == script_id {
                proof {
                    lemma_entry_index_unique(self.entries@, script_id, i as int);
                }
                return Some(&self.entries[i]);
            }
            i = i + 1;
        }
        proof {
            lemma_entry_index_unique(self.entries@, script_id, i as int);
        }
        None
    }

    /// The entry of group `group_id` with the lowest file id (the first of
    /// those, in insertion order); `None` when the group has no entry.
    pub fn resolve_group(&self, group_id: ScriptGroupId) -> (r: Option<&ScriptMetadata>)
        ensures
            match group_best(self.entries@, group_id) {
                Some(b) => r matches Some(m) && *m == self.entries@[b],
                None => r is None,
            },
            match r {
                Some(m) => {
                    &&& m.group_id == group_id
                    &&& exists|i: int| 0 <= i < self.entries@.len() && self.entries@[i] == *m
                    &&& forall|i: int|
                        0 <= i < self.entries@.len() && self.entries@[i].group_id == group_id
                            ==> m.file_id <= self.entries@[i].file_id
                },
                None => forall|i: int|
                    0 <= i < self.entries@.len() ==> self.entries@[i].group_id != group_id,
            },
    {
        let mut best: Option<usize> = None;
        let mut i: usize = 0;
        while i < self.entries.len()
            invariant
                i <= self.entries@.len(),
                match best {
                    Some(b) => {
                        &&& b < i
                        &&& self.entries@[b as int].group_id == group_id
                        &&& forall|j: int|
                            0 <= j < i && self.entries@[j].group_id == group_id
                                ==> self.entries@[b as int].file_id <= self.entries@[j].file_id
                    },
                    None => forall|j: int| 0 <= j < i ==> self.entries@[j].group_id != group_id,
                },
                match group_best(self.entries@.take(i as int), group_id) {
                    Some(b) => best == Some(b as usize),
                    None => best is None,
                },
            decreases self.entries@.len() - i,
        {
            proof {
                let s = self.entries@;
                assert(s.take(i + 1).drop_last() =~= s.take(i as int));
                assert(s.take(i + 1)[i as int] == s[i as int]);
                lemma_group_best(s.take(i as int), group_id);
                if let Some(b) = group_best(s.take(i as int), group_id) {
                    assert(s.take(i + 1)[b] == s[b]);
                }
            }
            if self.entries[i].group_id == group_id {
                match best {
                    Some(b) => {
                        if self.entries[i].file_id < self.entries[b].file_id {
                            best = Some(i);
                        }
                    },
                    None => {
                        best = Some(i);
                    },
                }
            }
            i = i + 1;
        }
        proof {
            assert(self.entries@.take(i as int) =~= self.entries@);
            lemma_group_best(self.entries@, group_id);
        }
        match best {
            Some(b) => Some(&self.entries[b]),
            None => None,
        }
    }

    /// The script a call with `raw_id` targets: the entry of group `raw_id`
    /// with the lowest file id, else the script with packed id `raw_id`.
    pub open spec fn call_target_spec(&self, raw_id: i32) -> Option<ScriptMetadata> {
        match group_best(self.entries@, ScriptGroupId(raw_id)) {
            Some(b) => Some(self.entries@[b]),
            None => self.get_spec(ScriptId(raw_id)),
        }
    }

    /// The script a call with `raw_id` targets: the group `raw_id`, else the
    /// script with packed id `raw_id`.
    pub fn resolve_call_target(&self, raw_id: i32) -> (r: Option<&ScriptMetadata>)
        ensures
            match self.call_target_spec(raw_id) {
                Some(m) => r matches Some(x) && *x == m,
                None => r is None,
            },
            r matches Some(m) ==> exists|i: int| 0 <= i < self.entries@.len() && self.entries@[i] == *m,
            (exists|i: int|
                0 <= i < self.entries@.len() && self.entries@[i].group_id == ScriptGroupId(raw_id))
                ==> (r matches Some(m) && m.group_id == ScriptGroupId(raw_id)),
            (forall|i: int|
                0 <= i < self.entries@.len() ==> self.entries@[i].group_id != ScriptGroupId(raw_id))
                ==> match r {
                Some(m) => self.get_spec(ScriptId(raw_id)) == Some(*m),
                None => self.get_spec(ScriptId(raw_id)) is None,
            },
    {
        match self.resolve_group(ScriptGroupId(raw_id)) {
            Some(m) => Some(m),
            None => {
                let r = self.get(ScriptId(raw_id));
                proof {
                    lemma_entry_index(self.entries@, ScriptId(raw_id));
                }
                r
            },
        }
    }

    /// The first entry whose export name is `export_name`.
    pub fn resolve_export_name(&self, export_name: &str) -> (r: Option<&ScriptMetadata>)
        ensures
            ({
                let i = export_index(self.entries@, export_name@);
                if i < self.entries@.len() {
                    r matches Some(m) && *m == self.entries@[i]
                } else {
                    r is None
                }
            }),
            match r {
                Some(m) => m.export_name@ == export_name@ && exists|i: int|
                    0 <= i < self.entries@.len() && self.entries@[i] == *m,
                None => forall|i: int|
                    0 <= i < self.entries@.len() ==> self.entries@[i].export_name@ != export_name@,
            },
    {
        let mut i: usize = 0;
        while i < self.entries.len()
            invariant
                i <= self.entries@.len(),
                forall|j: int| 0 <= j < i ==> self.entries@[j].export_name@ != export_name@,
            decreases self.entries@.len() - i,
        {
            if str_eq(self.entries[i].export_name.as_str(), export_name) {
                proof {
                    lemma_export_index_unique(self.entries@, export_name@, i as int);
                }
                return Some(&self.entries[i]);
            }
            i = i + 1;
        }
        proof {
            lemma_export_index_unique(self.entries@, export_name@, i as int);
        }
        None
    }

    /// The export name of `script_id`.
    pub fn export_name(&self, script_id: ScriptId) -> (r: Option<&String>)
        ensures
            match r {
                Some(n) => self.get_spec(script_id) matches Some(m) && m.export_name == *n,
                None => self.get_spec(script_id) is None,
            },
    {
        match self.get(script_id) {
            Some(m) => Some(&m.export_name),
            None => None,
        }
    }

    /// The module name of `script_id`.
    pub fn module_name(&self, script_id: ScriptId) -> (r: Option<&String>)
        ensures
            match r {
                Some(n) => self.get_spec(script_id) matches Some(m) && m.module_name == *n,
                None => self.get_spec(script_id) is None,
            },
    {
        match self.get(script_id) {
            Some(m) => Some(&m.module_name),
            None => None,
        }
    }

    /// The entries, in insertion order.
    pub fn iter(&self) -> (r: &Vec<ScriptMetadata>)
        ensures
            r@ == self.entries@,
    {
        &self.entries
    }

    /// The diagnostics raised while the catalog was built.
    pub fn diagnostics(&self) -> (r: &Vec<Diagnostic>)
        ensures
            r@ == self.diagnostics@,
    {
        &self.diagnostics
    }

    /// Each script's packed id with its export name.
    pub fn export_name_map(&self) -> (r: Vec<(ScriptId, String)>)
        ensures
            r@.len() == self.entries@.len(),
            forall|i: int|
                0 <= i < r@.len() ==> r@[i].0 == self.entries@[i].packed_id && r@[i].1@
                    == self.entries@[i].export_name@,
    {
        let mut out: Vec<(ScriptId, String)> = Vec::new();
        let mut i: usize = 0;
        while i < self.entries.len()
            invariant
                i <= self.entries@.len(),
                out@.len() == i,
                forall|j: int|
                    0 <= j < i ==> out@[j].0 == self.entries@[j].packed_id && out@[j].1@
                        == self.entries@[j].export_name@,
            decreases self.entries@.len() - i,
        {
            out.push((self.entries[i].packed_id, self.entries[i].export_name.clone()));
            i = i + 1;
        }
        out
    }

    /// Each script's packed id with its signature.
    pub fn signature_map(&self) -> (r: SignatureMap)
        ensures
            r.entries@.len() == self.entries@.len(),
            forall|i: int| 0 <= i < r.entries@.len() ==> r.entries@[i].0 == self.entries@[i].packed_id,
    {
        let mut out: Vec<(ScriptId, ScriptSignature)> = Vec::new();
        let mut i: usize = 0;
        while i < self.entries.len()
            invariant
                i <= self.entries@.len(),
                out@.len() == i,
                forall|j: int| 0 <= j < i ==> out@[j].0 == self.entries@[j].packed_id,
            decreases self.entries@.len() - i,
        {
            out.push((self.entries[i].packed_id, self.entries[i].signature.clone()));
            i = i + 1;
        }
        SignatureMap { entries: out }
    }
}

/// The index of the first pair of `s` for `id`, or `s.len()`.
pub open spec fn signature_index(s: Seq<(ScriptId, ScriptSignature)>, id: ScriptId) -> int
    decreases s.len(),
{
    if s.len() == 0 {
        0
    } else if s[0].0 == id {
        0
    } else {
        1 + signature_index(s.drop_first(), id)
    }
}

proof fn lemma_signature_index(s: Seq<(ScriptId, ScriptSignature)>, id: ScriptId)
    ensures
        0 <= signature_index(s, id) <= s.len(),
        signature_index(s, id) < s.len() ==> s[signature_index(s, id)].0 == id,
        forall|j: int| 0 <= j < signature_index(s, id) ==> s[j].0 != id,
    decreases s.len(),
{
    if s.len() > 0 && s[0].0 != id {
        lemma_signature_index(s.drop_first(), id);
        assert forall|j: int| 0 <= j < signature_index(s, id) implies s[j].0 != id by {
            if j > 0 {
                assert(s[j] == s.drop_first()[j - 1]);
            }
        }
    }
}

proof fn lemma_signature_index_unique(s: Seq<(ScriptId, ScriptSignature)>, id: ScriptId, i: int)
    requires
        0 <= i <= s.len(),
        i < s.len() ==> s[i].0 == id,
        forall|j: int| 0 <= j < i ==> s[j].0 != id,
    ensures
        signature_index(s, id) == i,
    decreases s.len(),
{
    if s.len() > 0 && s[0].0 != id {
        assert forall|j: int| 0 <= j < i - 1 implies s.drop_first()[j].0 != id by {
            assert(s.drop_first()[j] == s[j + 1]);
        }
        lemma_signature_index_unique(s.drop_first(), id, i - 1);
    }
}

/// Script signatures by packed id; the first pair for an id counts.
#[derive(Debug, Clone)]
pub struct SignatureMap {
    pub entries: Vec<(ScriptId, ScriptSignature)>,
}

impl SignatureMap {
    /// The signature of `id`, if any.
    pub open spec fn get_spec(&self, id: ScriptId) -> Option<ScriptSignature> {
        let i = signature_index(self.entries@, id);
        if i < self.entries@.len() {
            Some(self.entries@[i].1)
        } else {
            None
        }
    }

    /// No signatures.
    pub fn new() -> (r: SignatureMap)
        ensures
            r.entries@ == Seq::<(ScriptId, ScriptSignature)>::empty(),
    {
        SignatureMap { entries: Vec::new() }
    }

    /// The map of the given pairs.
    pub fn from_pairs(pairs: Vec<(ScriptId, ScriptSignature)>) -> (r: SignatureMap)
        ensures
            r.entries@ == pairs@,
    {
        SignatureMap { entries: pairs }
    }

    /// The signature of `id`, if any.
    pub fn get(&self, id: ScriptId) -> (r: Option<&ScriptSignature>)
        ensures
            match r {
                Some(s) => self.get_spec(id) == Some(*s),
                None => self.get_spec(id) is None,
            },
    {
        let mut i: usize = 0;
        while i < self.entries.len()
            invariant
                i <= self.entries@.len(),
                forall|j: int| 0 <= j < i ==> self.entries@[j].0 != id,
            decreases self.entries@.len() - i,
        {
            if self.entries[i].0 == id {
                proof {
                    lemma_signature_index_unique(self.entries@, id, i as int);
                }
                return Some(&self.entries[i].1);
            }
            i = i + 1;
        }
        proof {
            lemma_signature_index_unique(self.entries@, id, i as int);
        }
        None
    }

    /// Sets the signature of `id`.
    pub fn insert(&mut self, id: ScriptId, signature: ScriptSignature)
        ensures
            final(self).get_spec(id) == Some(signature),
            forall|other: ScriptId| other != id ==> #[trigger] final(self).get_spec(other) == old(self).get_spec(other),
    {
        let mut i: usize = 0;
        while i < self.entries.len()
            invariant
                i <= self.entries@.len(),
                self.entries@ == old(self).entries@,
                forall|j: int| 0 <= j < i ==> self.entries@[j].0 != id,
            decreases self.entries@.len() - i,
        {
            if self.entries[i].0 == id {
                let ghost before = self.entries@;
                self.entries.set(i, (id, signature));
                proof {
                    let after = self.entries@;
                    lemma_signature_index_unique(after, id, i as int);
                    assert forall|other: ScriptId| other != id implies #[trigger] self.get_spec(other)
                        == old(self).get_spec(other) by {
                        lemma_signature_index(before, other);
                        let k = signature_index(before, other);
                        assert forall|j: int| 0 <= j < k implies after[j].0 != other by {
                            if j != i {
                                assert(after[j] == before[j]);
                            }
                        }
                        if k < before.len() {
                            assert(k != i);
                            assert(after[k] == before[k]);
                        }
                        lemma_signature_index_unique(after, other, k);
                    }
                }
                return;
            }
            i = i + 1;
        }
        let ghost before = self.entries@;
        self.entries.push((id, signature));
        proof {
            let after = self.entries@;
            lemma_signature_index_unique(after, id, i as int);
            assert forall|other: ScriptId| other != id implies #[trigger] self.get_spec(other) == old(self).get_spec(
                other,
            ) by {
                lemma_signature_index(before, other);
                let k = signature_index(before, other);
                if k < before.len() {
                    assert forall|j: int| 0 <= j < k implies after[j].0 != other by {
                        assert(after[j] == before[j]);
                    }
                    assert(after[k] == before[k]);
                    lemma_signature_index_unique(after, other, k);
                } else {
                    assert forall|j: int| 0 <= j < after.len() implies after[j].0 != other by {
                        if j < before.len() {
                            assert(after[j] == before[j]);
                        }
                    }
                    lemma_signature_index_unique(after, other, after.len() as int);
                }
            }
        }
    }
}

/// The signature of `script_id`: the given one, else the catalog's.
pub fn resolve_script_signature<'a>(
    script_catalog: &'a ScriptCatalog,
    script_signatures: &'a SignatureMap,
    script_id: ScriptId,
) -> (r: Option<&'a ScriptSignature>)
    ensures
        match script_signatures.get_spec(script_id) {
            Some(s) => r == Some(&s),
            None => match script_catalog.get_spec(script_id) {
                Some(m) => r == Some(&m.signature),
                None => r is None,
            },
        },
{
    match script_signatures.get(script_id) {
        Some(s) => Some(s),
        None => match script_catalog.get(script_id) {
            Some(m) => Some(&m.signature),
            None => None,
        },
    }
}

/// The signature of `id`: the given one, else the catalog's.
pub open spec fn signature_for(catalog: ScriptCatalog, sigs: SignatureMap, id: ScriptId) -> Option<ScriptSignature> {
    match sigs.get_spec(id) {
        Some(s) => Some(s),
        None => match catalog.get_spec(id) {
            Some(m) => Some(m.signature),
            None => None,
        },
    }
}

/// The target of a call with `raw_id` and the signature of that target.
pub open spec fn call_target_signature(catalog: ScriptCatalog, sigs: SignatureMap, raw_id: i32) -> Option<
    (ScriptMetadata, ScriptSignature),
> {
    match catalog.call_target_spec(raw_id) {
        Some(m) => match signature_for(catalog, sigs, m.packed_id) {
            Some(s) => Some((m, s)),
            None => None,
        },
        None => None,
    }
}

/// The target of a call with `raw_id` and its signature.
pub fn resolve_call_target_signature<'a>(
    script_catalog: &'a ScriptCatalog,
    script_signatures: &'a SignatureMap,
    raw_id: i32,
) -> (r: Option<(&'a ScriptMetadata, &'a ScriptSignature)>)
    ensures
        match call_target_signature(*script_catalog, *script_signatures, raw_id) {
            Some((m, s)) => r matches Some((x, y)) && *x == m && *y == s,
            None => r is None,
        },
        r matches Some((m, s)) ==> (exists|i: int|
            0 <= i < script_catalog.entries@.len() && script_catalog.entries@[i] == *m)
            && match script_signatures.get_spec(m.packed_id) {
            Some(t) => *s == t,
            None => script_catalog.get_spec(m.packed_id) matches Some(e) && *s == e.signature,
        },
{
    let m = match script_catalog.resolve_call_target(raw_id) {
        Some(m) => m,
        None => return None,
    };
    proof {
        if !(exists|i: int|
            0 <= i < script_catalog.entries@.len() && script_catalog.entries@[i].group_id
                == ScriptGroupId(raw_id)) {
            lemma_entry_index(script_catalog.entries@, ScriptId(raw_id));
        }
    }
    match resolve_script_signature(script_catalog, script_signatures, m.packed_id) {
        Some(s) => Some((m, s)),
        None => None,
    }
}

} // verus!
