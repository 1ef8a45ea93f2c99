//! A second renderer over structured scripts: RuneScript source, with
//! `name(type $arg)(ret)` headers, `$<type><idx>` locals declared by
//! `def_`, `calc(...)` arithmetic, `~proc` calls, `%var` references and
//! RuneScript comparison operators.
use crate::text::{
    chars_eq, chars_of, push_chars, push_i64, push_str, push_u64, starts_with, str_eq, string_from, string_of,
    string_push, without_underscores,
};
use crate::transpile::ast::{BinaryOp, CallExpr, CallbackLiteral, Expression, PropertyAccess, UnaryOp};
use crate::transpile::structured::{
    push_escaped, push_joined_names, AssignmentTarget, StructuredScript, StructuredStmt, SwitchCaseStmt,
};
use vstd::prelude::*;

verus! {

broadcast use vstd::string::group_string_axioms;

/// The local-variable stack a decoder name lives on.
#[derive(Clone, Copy, PartialEq, Eq, Structural)]
enum Domain {
    Int,
    Obj,
    Long,
}

/// `int`, `obj`/`string` or `long`.
spec fn domain_of_token(token: Seq<char>) -> Option<Domain> {
    if token == "int"@ {
        Some(Domain::Int)
    } else if token == "obj"@ || token == "string"@ {
        Some(Domain::Obj)
    } else if token == "long"@ {
        Some(Domain::Long)
    } else {
        None
    }
}

/// `int`, `obj`/`string` or `long`.
fn domain_from_token(token: &[char]) -> (r: Option<Domain>)
    ensures
        r == domain_of_token(token@),
{
    if chars_eq(token, "int") {
        Some(Domain::Int)
    } else if chars_eq(token, "obj") || chars_eq(token, "string") {
        Some(Domain::Obj)
    } else if chars_eq(token, "long") {
        Some(Domain::Long)
    } else {
        None
    }
}

/// The RuneScript type keyword of a domain.
spec fn base_text(d: Domain) -> Seq<char> {
    match d {
        Domain::Int => "int"@,
        Domain::Obj => "string"@,
        Domain::Long => "long"@,
    }
}

/// The RuneScript type keyword of a domain.
fn base_type(d: Domain) -> (r: &'static str)
    ensures
        r@ == base_text(d),
{
    match d {
        Domain::Int => "int",
        Domain::Obj => "string",
        Domain::Long => "long",
    }
}

/// The first pair of `t` whose key is `key`.
spec fn ui_entry(t: Seq<UiPair>, key: Seq<char>) -> Option<UiPair>
    decreases t.len(),
{
    if t.len() == 0 {
        None
    } else if t[0].key@ == key {
        Some(t[0])
    } else {
        ui_entry(t.drop_first(), key)
    }
}

/// The view of an optional string.
spec fn opt_view(s: Option<String>) -> Option<Seq<char>> {
    match s {
        Some(x) => Some(x@),
        None => None,
    }
}

/// The `cc_`/`if_` forms of one interface command family.
#[derive(Clone)]
struct UiPair {
    key: String,
    cc: Option<String>,
    if_form: Option<String>,
}

/// What rendering needs besides the script: the canonical command names
/// (to undo underscore stripping and `UI.` naming) and the names of
/// scripts (rendered as `~name`).
#[derive(Clone)]
pub struct RuneScriptContext {
    generic: Vec<(String, String)>,
    ui: Vec<UiPair>,
    scripts: Vec<String>,
}

/// `name` without its underscores.
pub fn strip_underscores(name: &[char]) -> (r: Vec<char>)
    ensures
        r@ == without_underscores(name@),
{
    crate::text::remove_underscores(name)
}

/// ASCII letters lower-cased.
fn ascii_lower(s: &[char]) -> (r: Vec<char>)
    ensures
        r@.len() == s@.len(),
        r@ == s@.map_values(|c: char| crate::text::lower_ascii(c)),
{
    let mut out: Vec<char> = Vec::new();
    let mut i: usize = 0;
    while i < s.len()
        invariant
            i <= s@.len(),
            out@.len() == i,
            out@ == s@.take(i as int).map_values(|c: char| crate::text::lower_ascii(c)),
        decreases s@.len() - i,
    {
        proof {
            assert(s@.take(i + 1).map_values(|c: char| crate::text::lower_ascii(c)) =~= s@.take(i as int).map_values(
                |c: char| crate::text::lower_ascii(c),
            ).push(crate::text::lower_ascii(s@[i as int])));
        }
        let c = s[i];
        if 'A' <= c && c <= 'Z' {
            assert((c as u8) as int == c as int);
            out.push(((c as u8) + 32) as char);
        } else {
            out.push(c);
        }
        i = i + 1;
    }
    proof {
        assert(s@.take(i as int) =~= s@);
    }
    out
}

/// Whether two character slices are equal.
fn same_chars(a: &[char], b: &[char]) -> (r: bool)
    ensures
        r == (a@ == b@),
{
    if a.len() != b.len() {
        return false;
    }
    let mut i: usize = 0;
    while i < a.len()
        invariant
            i <= a@.len(),
            a@.len() == b@.len(),
            forall|k: int| 0 <= k < i ==> a@[k] == b@[k],
        decreases a@.len() - i,
    {
        if a[i] != b[i] {
            return false;
        }
        i = i + 1;
    }
    proof {
        assert(a@ =~= b@);
    }
    true
}

/// The value the first entry for `key` pairs it with.
pub open spec fn first_binding(t: Seq<(Seq<char>, Seq<char>)>, key: Seq<char>) -> Option<Seq<char>>
    decreases t.len(),
{
    if t.len() == 0 {
        None
    } else if t[0].0 == key {
        Some(t[0].1)
    } else {
        first_binding(t.drop_first(), key)
    }
}

/// A table of string pairs by their characters.
pub open spec fn pair_view(t: Seq<(String, String)>) -> Seq<(Seq<char>, Seq<char>)> {
    t.map_values(|e: (String, String)| (e.0@, e.1@))
}

/// The value paired with `key`, first match.
fn lookup<'b>(table: &'b Vec<(String, String)>, key: &[char]) -> (r: Option<&'b String>)
    ensures
        match r {
            Some(v) => first_binding(pair_view(table@), key@) == Some(v@),
            None => first_binding(pair_view(table@), key@) is None,
        },
{
    let ghost t = pair_view(table@);
    let mut i: usize = 0;
    proof {
        assert(t.skip(0) =~= t);
    }
    while i < table.len()
        invariant
            i <= table@.len(),
            t == pair_view(table@),
            first_binding(t, key@) == first_binding(t.skip(i as int), key@),
        decreases table@.len() - i,
    {
        proof {
            assert(t.skip(i as int).drop_first() =~= t.skip(i + 1));
            assert(t.skip(i as int)[0] == (table@[i as int].0@, table@[i as int].1@));
        }
        let k = chars_of(table[i].0.as_str());
        if same_chars(&k, key) {
            return Some(&table[i].1);
        }
        i = i + 1;
    }
    proof {
        assert(t.skip(i as int).len() == 0);
    }
    None
}

fn contains_name(v: &Vec<String>, name: &str) -> (r: bool)
    ensures
        r == exists|i: int| 0 <= i < v@.len() && v@[i]@ == name@,
{
    let mut i: usize = 0;
    while i < v.len()
        invariant
            i <= v@.len(),
            forall|j: int| 0 <= j < i ==> v@[j]@ != name@,
        decreases v@.len() - i,
    {
        if str_eq(v[i].as_str(), name) {
            return true;
        }
        i = i + 1;
    }
    false
}

/// The command name a registry line holds: the trimmed text before its
/// first comma, unless the line is blank, a `//` comment or has no name.
pub open spec fn registry_name(line: Seq<char>) -> Option<Seq<char>> {
    let t = crate::text::trim(line);
    if t.len() == 0 || "//"@.is_prefix_of(t) {
        None
    } else {
        let name = crate::text::trim(crate::script::comma_field(t, 0)->0);
        if name.len() == 0 {
            None
        } else {
            Some(name)
        }
    }
}

/// The commands of a registry, each under its spelling without
/// underscores; the first command with a spelling wins.
pub open spec fn registry_commands(lines: Seq<Seq<char>>) -> Seq<(Seq<char>, Seq<char>)>
    decreases lines.len(),
{
    if lines.len() == 0 {
        seq![]
    } else {
        let acc = registry_commands(lines.drop_last());
        match registry_name(lines.last()) {
            Some(n) => if first_binding(acc, without_underscores(n)) is None {
                acc.push((without_underscores(n), n))
            } else {
                acc
            },
            None => acc,
        }
    }
}

impl RuneScriptContext {
    /// The commands by their spelling without underscores.
    pub closed spec fn commands_table(&self) -> Seq<(Seq<char>, Seq<char>)> {
        pair_view(self.generic@)
    }

    /// The names of the scripts (rendered `~name`).
    pub closed spec fn script_names(&self) -> Seq<Seq<char>> {
        crate::text::views(self.scripts@)
    }

    /// The context over an opcode registry (`name,id[,build]` lines, `//`
    /// comments) and the given script names. The first name with a given
    /// underscore-less spelling wins.
    pub fn from_opcodes(opcodes: &str, scripts: Vec<String>) -> (r: Self)
        ensures
            r.commands_table() == registry_commands(crate::text::lines_spec(opcodes@)),
            r.script_names() == crate::text::views(scripts@),
    {
        let mut generic: Vec<(String, String)> = Vec::new();
        let mut ui: Vec<UiPair> = Vec::new();
        let text = chars_of(opcodes);
        let lines = crate::text::lines(&text);
        let ghost all = crate::text::lines_spec(opcodes@);
        let mut i: usize = 0;
        while i < lines.len()
            invariant
                i <= lines@.len(),
                lines.deep_view() == all,
                all == crate::text::lines_spec(opcodes@),
                pair_view(generic@) == registry_commands(all.take(i as int)),
            decreases lines@.len() - i,
        {
            proof {
                assert(lines.deep_view()[i as int] == lines@[i as int]@);
                assert(all.take(i + 1).drop_last() =~= all.take(i as int));
                assert(all.take(i + 1).last() == all[i as int]);
            }
            let line = crate::text::trim_chars(&lines[i]);
            if line.len() > 0 && !starts_with(&line, "//") {
                let name_end = crate::text::find_char_from(&line, ',', 0);
                let name = crate::text::trim_chars(&crate::text::slice_vec(&line, 0, name_end));
                if name.len() > 0 {
                    let is_cc = starts_with(&name, "cc_");
                    let is_if = starts_with(&name, "if_");
                    if (is_cc || is_if) && name.len() >= 3 {
                        let suffix = crate::text::slice_vec(&name, 3, name.len());
                        let key = ascii_lower(&strip_underscores(&suffix));
                        let mut found = false;
                        let mut k: usize = 0;
                        while k < ui.len()
                            decreases ui@.len() - k,
                        {
                            let kk = chars_of(ui[k].key.as_str());
                            if same_chars(&kk, &key) {
                                let mut pair = ui[k].clone();
                                if is_cc {
                                    if pair.cc.is_none() {
                                        pair.cc = Some(string_of(&name));
                                    }
                                } else if pair.if_form.is_none() {
                                    pair.if_form = Some(string_of(&name));
                                }
                                ui.set(k, pair);
                                found = true;
                                break;
                            }
                            k = k + 1;
                        }
                        if !found {
                            let nm = string_of(&name);
                            ui.push(
                                UiPair {
                                    key: string_of(&key),
                                    cc: if is_cc {
                                        Some(nm.clone())
                                    } else {
                                        None
                                    },
                                    if_form: if is_cc {
                                        None
                                    } else {
                                        Some(nm)
                                    },
                                },
                            );
                        }
                    }
                    let stripped = strip_underscores(&name);
                    if lookup(&generic, &stripped).is_none() {
                        let ghost before = generic@;
                        let entry = (string_of(&stripped), string_of(&name));
                        generic.push(entry);
                        proof {
                            assert(pair_view(generic@) =~= pair_view(before).push((stripped@, name@)));
                        }
                    }
                }
            }
            proof {
                assert(line@ == crate::text::trim(all[i as int]));
                assert(line@.skip(0) =~= line@);
                assert(line@.subrange(0, crate::text::index_of(line@, ',')) =~= line@.take(
                    crate::text::index_of(line@, ','),
                ));
                assert(pair_view(generic@) == registry_commands(all.take(i + 1)));
            }
            i = i + 1;
        }
        proof {
            assert(all.take(i as int) =~= all);
        }
        RuneScriptContext { generic, ui, scripts }
    }

    /// The canonical command spelled `display` without underscores.
    fn canonical_command(&self, display: &[char]) -> (r: Option<&String>) {
        lookup(&self.generic, &strip_underscores(display))
    }

    /// The `cc_`/`if_` command a `UI.<method>` call stands for: the `if_`
    /// form when the call names a component, else the `cc_` form.
    fn ui_command(&self, method: &[char], has_component_arg: bool) -> (r: Option<String>)
        ensures
            match ui_entry(self.ui@, method@.map_values(|c: char| crate::text::lower_ascii(c))) {
                Some(p) => opt_view(r) == (if has_component_arg {
                    match p.if_form {
                        Some(x) => Some(x@),
                        None => opt_view(p.cc),
                    }
                } else {
                    match p.cc {
                        Some(x) => Some(x@),
                        None => opt_view(p.if_form),
                    }
                }),
                None => r is None,
            },
    {
        let key = ascii_lower(method);
        let ghost lk = method@.map_values(|c: char| crate::text::lower_ascii(c));
        let mut k: usize = 0;
        proof {
            assert(self.ui@.skip(0) =~= self.ui@);
        }
        while k < self.ui.len()
            invariant
                k <= self.ui@.len(),
                key@ == lk,
                lk == method@.map_values(|c: char| crate::text::lower_ascii(c)),
                ui_entry(self.ui@, lk) == ui_entry(self.ui@.skip(k as int), lk),
            decreases self.ui@.len() - k,
        {
            proof {
                assert(self.ui@.skip(k as int).drop_first() =~= self.ui@.skip(k + 1));
                assert(self.ui@.skip(k as int)[0] == self.ui@[k as int]);
            }
            let kk = chars_of(self.ui[k].key.as_str());
            if same_chars(&kk, &key) {
                let pair = &self.ui[k];
                let chosen = if has_component_arg {
                    match &pair.if_form {
                        Some(x) => Some(x.clone()),
                        None => match &pair.cc {
                            Some(y) => Some(y.clone()),
                            None => None,
                        },
                    }
                } else {
                    match &pair.cc {
                        Some(x) => Some(x.clone()),
                        None => match &pair.if_form {
                            Some(y) => Some(y.clone()),
                            None => None,
                        },
                    }
                };
                proof {
                    assert(kk@ == self.ui@[k as int].key@);
                    assert(ui_entry(self.ui@.skip(k as int), lk) == Some(self.ui@[k as int]));
                    assert(*pair == self.ui@[k as int]);
                    assert(opt_view(chosen) == (if has_component_arg {
                        match pair.if_form {
                            Some(x) => Some(x@),
                            None => opt_view(pair.cc),
                        }
                    } else {
                        match pair.cc {
                            Some(x) => Some(x@),
                            None => opt_view(pair.if_form),
                        }
                    }));
                }
                return chosen;
            }
            k = k + 1;
        }
        None
    }

    fn is_script(&self, name: &str) -> (r: bool) {
        contains_name(&self.scripts, name)
    }

    /// Whether `name` is itself a canonical command (not a stack pseudo
    /// call such as `stackassign_2`): the command its spelling without
    /// underscores stands for is `name`.
    pub fn is_canonical_command(&self, name: &str) -> (r: bool)
        ensures
            r == (first_binding(self.commands_table(), without_underscores(name@)) == Some(name@)),
    {
        let n = chars_of(name);
        match lookup(&self.generic, &strip_underscores(&n)) {
            Some(c) => str_eq(c.as_str(), name),
            None => false,
        }
    }
}

/// A decoder local name `<kind>_<token>_<index>` (`local_int_0`,
/// `arg_obj_2`): whether it is an argument (`arg`) or a local (`local`),
/// the domain its token names and its index.
spec fn local_name_parts(name: Seq<char>) -> Option<(bool, Domain, usize)> {
    let k1 = crate::text::index_of(name, '_');
    if k1 >= name.len() {
        None
    } else {
        let kind = name.take(k1);
        let rest = name.skip(k1 + 1);
        let k2 = crate::text::index_of(rest, '_');
        if k2 >= rest.len() {
            None
        } else {
            match domain_of_token(rest.take(k2)) {
                None => None,
                Some(d) => match crate::text::parse_in_range(rest.skip(k2 + 1), false, 0, usize::MAX as int) {
                    None => None,
                    Some(i) => if kind == "arg"@ {
                        Some((true, d, i as usize))
                    } else if kind == "local"@ {
                        Some((false, d, i as usize))
                    } else {
                        None
                    },
                },
            }
        }
    }
}

/// A decoder local name (`local_int_0`, `arg_obj_2`): whether it is an
/// argument, its domain and its index.
fn parse_local_name(name: &[char]) -> (r: Option<(bool, Domain, usize)>)
    ensures
        r == local_name_parts(name@),
{
    proof {
        assert(name@.skip(0) =~= name@);
    }
    let first = crate::text::find_char_from(name, '_', 0);
    if first >= name.len() {
        return None;
    }
    let kind = crate::text::slice_vec(name, 0, first);
    let rest = crate::text::slice_vec(name, first + 1, name.len());
    proof {
        assert(rest@ =~= name@.skip(first + 1));
        assert(rest@.skip(0) =~= rest@);
    }
    let second = crate::text::find_char_from(&rest, '_', 0);
    if second >= rest.len() {
        return None;
    }
    let token = crate::text::slice_vec(&rest, 0, second);
    let index_text = crate::text::slice_vec(&rest, second + 1, rest.len());
    proof {
        assert(index_text@ =~= rest@.skip(second + 1));
    }
    let domain = match domain_from_token(&token) {
        Some(d) => d,
        None => return None,
    };
    let index = match crate::text::parse_usize(&index_text) {
        Some(i) => i,
        None => return None,
    };
    if chars_eq(&kind, "arg") {
        Some((true, domain, index))
    } else if chars_eq(&kind, "local") {
        Some((false, domain, index))
    } else {
        None
    }
}

/// `$<type><index>`.
fn rs_local_name(d: Domain, index: usize) -> (r: String)
    ensures
        r@ == rs_name_of(d, index as nat),
{
    let mut s = string_from("$");
    push_str(&mut s, base_type(d));
    push_u64(&mut s, index as u64);
    s
}

/// `$<type><index>`.
spec fn rs_name_of(d: Domain, index: nat) -> Seq<char> {
    "$"@ + base_text(d) + crate::text::dec_nat(index)
}

/// How many of `names` are decoder names of domain `d`.
spec fn domain_count(names: Seq<Seq<char>>, d: Domain) -> nat
    decreases names.len(),
{
    if names.len() == 0 {
        0
    } else {
        domain_count(names.drop_last(), d) + match local_name_parts(names.last()) {
            Some((_, e, _)) => if e == d {
                1nat
            } else {
                0nat
            },
            None => 0nat,
        }
    }
}

/// The offset of domain `d`.
spec fn offset_of(o: (nat, nat, nat), d: Domain) -> nat {
    match d {
        Domain::Int => o.0,
        Domain::Obj => o.1,
        Domain::Long => o.2,
    }
}

/// The count of each domain among `names`.
spec fn domain_counts(names: Seq<Seq<char>>) -> (nat, nat, nat) {
    (domain_count(names, Domain::Int), domain_count(names, Domain::Obj), domain_count(names, Domain::Long))
}

/// Each decoder name of `names` with its RuneScript name, its index moved
/// up by the count of its domain in `offsets` (saturating).
spec fn renamed(names: Seq<Seq<char>>, offsets: (nat, nat, nat)) -> Seq<(Seq<char>, Seq<char>)>
    decreases names.len(),
{
    if names.len() == 0 {
        Seq::empty()
    } else {
        let prev = renamed(names.drop_last(), offsets);
        match local_name_parts(names.last()) {
            Some((_, d, i)) => prev.push(
                (
                    names.last(),
                    rs_name_of(
                        d,
                        if offset_of(offsets, d) + i > usize::MAX {
                            usize::MAX as nat
                        } else {
                            (offset_of(offsets, d) + i) as nat
                        },
                    ),
                ),
            ),
            None => prev,
        }
    }
}

/// The type keyword and RuneScript name of each argument decoder name.
spec fn argument_types(names: Seq<Seq<char>>) -> Seq<(Seq<char>, Seq<char>)>
    decreases names.len(),
{
    if names.len() == 0 {
        Seq::empty()
    } else {
        let prev = argument_types(names.drop_last());
        match local_name_parts(names.last()) {
            Some((_, d, i)) => prev.push((base_text(d), rs_name_of(d, i as nat))),
            None => prev,
        }
    }
}

/// The names an array is known by (`array_<index>` and `array_<raw id>`),
/// each with `$arr<index>`, its index being the raw id's high half.
spec fn array_names(raws: Seq<u32>) -> Seq<(Seq<char>, Seq<char>)>
    decreases raws.len(),
{
    if raws.len() == 0 {
        Seq::empty()
    } else {
        let raw = raws.last();
        let index = (raw / 65536) as nat;
        let rs = "$arr"@ + crate::text::dec_nat(index);
        array_names(raws.drop_last()).push(("array_"@ + crate::text::dec_nat(index), rs)).push(
            ("array_"@ + crate::text::dec_nat(raw as nat), rs),
        )
    }
}

/// Decoder names of locals and arguments mapped to RuneScript names:
/// arguments take the low indices of their domain, locals follow.
struct LocalRenamer {
    names: Vec<(String, String)>,
    arguments: Vec<(String, String)>,
    arrays: Vec<(String, String)>,
}

fn build_renamer(script: &StructuredScript) -> (r: LocalRenamer)
    ensures
        ({
            let an = script.arguments@.map_values(|a: crate::transpile::ast::ArgumentVariable| a.name@);
            let ln = script.locals@.map_values(|l: crate::transpile::ast::LocalVariable| l.name@);
            &&& pair_view(r.names@) == renamed(an, (0nat, 0nat, 0nat)) + renamed(ln, domain_counts(an))
            &&& pair_view(r.arguments@) == argument_types(an)
            &&& pair_view(r.arrays@) == array_names(script.arrays@)
        }),
{
    let ghost an = script.arguments@.map_values(|a: crate::transpile::ast::ArgumentVariable| a.name@);
    let ghost ln = script.locals@.map_values(|l: crate::transpile::ast::LocalVariable| l.name@);
    let mut counts: [usize; 3] = [0, 0, 0];
    let mut i: usize = 0;
    while i < script.arguments.len()
        invariant
            i <= script.arguments@.len(),
            an == script.arguments@.map_values(|a: crate::transpile::ast::ArgumentVariable| a.name@),
            counts@.len() == 3,
            counts@[0] == domain_count(an.take(i as int), Domain::Int),
            counts@[1] == domain_count(an.take(i as int), Domain::Obj),
            counts@[2] == domain_count(an.take(i as int), Domain::Long),
            counts@[0] + counts@[1] + counts@[2] <= i,
        decreases script.arguments@.len() - i,
    {
        proof {
            assert(an.take(i + 1).drop_last() =~= an.take(i as int));
            assert(an.take(i + 1).last() == script.arguments@[i as int].name@);
        }
        let n = chars_of(script.arguments[i].name.as_str());
        if let Some((_, d, _)) = parse_local_name(&n) {
            let slot = domain_slot(d);
            counts.set(slot, counts[slot].saturating_add(1));
        }
        i = i + 1;
    }
    proof {
        assert(an.take(i as int) =~= an);
    }
    let mut names: Vec<(String, String)> = Vec::new();
    let mut arguments: Vec<(String, String)> = Vec::new();
    let mut i: usize = 0;
    while i < script.arguments.len()
        invariant
            i <= script.arguments@.len(),
            an == script.arguments@.map_values(|a: crate::transpile::ast::ArgumentVariable| a.name@),
            pair_view(names@) == renamed(an.take(i as int), (0nat, 0nat, 0nat)),
            pair_view(arguments@) == argument_types(an.take(i as int)),
        decreases script.arguments@.len() - i,
    {
        proof {
            assert(an.take(i + 1).drop_last() =~= an.take(i as int));
            assert(an.take(i + 1).last() == script.arguments@[i as int].name@);
        }
        let n = chars_of(script.arguments[i].name.as_str());
        if let Some((_, d, index)) = parse_local_name(&n) {
            let rs = rs_local_name(d, index);
            names.push((script.arguments[i].name.clone(), rs.clone()));
            arguments.push((string_from(base_type(d)), rs));
            proof {
                assert(pair_view(names@) =~= renamed(an.take(i as int), (0nat, 0nat, 0nat)).push(
                    (an[i as int], rs_name_of(d, index as nat)),
                ));
                assert(pair_view(arguments@) =~= argument_types(an.take(i as int)).push(
                    (base_text(d), rs_name_of(d, index as nat)),
                ));
            }
        }
        i = i + 1;
    }
    proof {
        assert(an.take(i as int) =~= an);
    }
    let ghost head = pair_view(names@);
    let mut i: usize = 0;
    proof {
        assert(head + renamed(ln.take(0), domain_counts(an)) =~= head);
    }
    while i < script.locals.len()
        invariant
            i <= script.locals@.len(),
            ln == script.locals@.map_values(|l: crate::transpile::ast::LocalVariable| l.name@),
            counts@.len() == 3,
            counts@[0] == domain_count(an, Domain::Int),
            counts@[1] == domain_count(an, Domain::Obj),
            counts@[2] == domain_count(an, Domain::Long),
            pair_view(names@) == head + renamed(ln.take(i as int), domain_counts(an)),
        decreases script.locals@.len() - i,
    {
        proof {
            assert(ln.take(i + 1).drop_last() =~= ln.take(i as int));
            assert(ln.take(i + 1).last() == script.locals@[i as int].name@);
        }
        let n = chars_of(script.locals[i].name.as_str());
        if let Some((_, d, index)) = parse_local_name(&n) {
            let offset = counts[domain_slot(d)];
            let idx2 = offset.saturating_add(index);
            let ghost before = pair_view(names@);
            names.push((script.locals[i].name.clone(), rs_local_name(d, idx2)));
            proof {
                assert(offset == offset_of(domain_counts(an), d));
                assert(idx2 as nat == (if offset_of(domain_counts(an), d) + index > usize::MAX {
                    usize::MAX as nat
                } else {
                    (offset_of(domain_counts(an), d) + index) as nat
                }));
                assert(local_name_parts(ln[i as int]) matches Some((_, dd, ii)) && dd == d && ii == index);
                assert(renamed(ln.take(i + 1), domain_counts(an)) == renamed(ln.take(i as int), domain_counts(an)).push(
                    (ln[i as int], rs_name_of(d, idx2 as nat)),
                ));
                assert(pair_view(names@) =~= before.push((ln[i as int], rs_name_of(d, idx2 as nat))));
            }
        }
        i = i + 1;
    }
    proof {
        assert(ln.take(i as int) =~= ln);
    }
    let mut arrays: Vec<(String, String)> = Vec::new();
    let mut i: usize = 0;
    while i < script.arrays.len()
        invariant
            i <= script.arrays@.len(),
            pair_view(arrays@) == array_names(script.arrays@.take(i as int)),
        decreases script.arrays@.len() - i,
    {
        proof {
            assert(script.arrays@.take(i + 1).drop_last() =~= script.arrays@.take(i as int));
            assert(script.arrays@.take(i + 1).last() == script.arrays@[i as int]);
        }
        let raw = script.arrays[i];
        assert(raw >> 16 == raw / 65536) by (bit_vector);
        let index = raw >> 16;
        let mut rs = string_from("$arr");
        push_u64(&mut rs, index as u64);
        let mut by_index = string_from("array_");
        push_u64(&mut by_index, index as u64);
        let mut by_raw = string_from("array_");
        push_u64(&mut by_raw, raw as u64);
        arrays.push((by_index, rs.clone()));
        arrays.push((by_raw, rs));
        proof {
            assert(pair_view(arrays@) =~= array_names(script.arrays@.take(i + 1)));
        }
        i = i + 1;
    }
    proof {
        assert(script.arrays@.take(i as int) =~= script.arrays@);
    }
    LocalRenamer { names, arguments, arrays }
}

fn domain_slot(d: Domain) -> (r: usize)
    ensures
        r < 3,
        r == (match d {
            Domain::Int => 0usize,
            Domain::Obj => 1usize,
            Domain::Long => 2usize,
        }),
{
    match d {
        Domain::Int => 0,
        Domain::Obj => 1,
        Domain::Long => 2,
    }
}

/// The names assigned (to a plain identifier) in a statement, nested
/// bodies included, in order.
pub open spec fn assigned_in(st: StructuredStmt) -> Seq<Seq<char>>
    decreases st,
{
    match st {
        StructuredStmt::Assignment { target, .. } => match target {
            AssignmentTarget::Identifier(name) => seq![name@],
            _ => Seq::empty(),
        },
        StructuredStmt::While { body } => assigned_list(
            {
                proof {
                    assert(decreases_to!(st => body));
                    assert(decreases_to!(body => body@));
                }
                body@
            },
        ),
        StructuredStmt::If { then_body, else_body, .. } => assigned_list(
            {
                proof {
                    assert(decreases_to!(st => then_body));
                    assert(decreases_to!(then_body => then_body@));
                }
                then_body@
            },
        ) + match else_body {
            Some(e) => assigned_list(
                {
                    proof {
                        assert(decreases_to!(st => else_body));
                        assert(decreases_to!(else_body => e));
                        assert(decreases_to!(e => e@));
                    }
                    e@
                },
            ),
            None => Seq::empty(),
        },
        StructuredStmt::Switch { cases, default_body, .. } => assigned_cases(
            {
                proof {
                    assert(decreases_to!(st => cases));
                    assert(decreases_to!(cases => cases@));
                }
                cases@
            },
        ) + match default_body {
            Some(d) => assigned_list(
                {
                    proof {
                        assert(decreases_to!(st => default_body));
                        assert(decreases_to!(default_body => d));
                        assert(decreases_to!(d => d@));
                    }
                    d@
                },
            ),
            None => Seq::empty(),
        },
        _ => Seq::empty(),
    }
}

/// The names assigned in a list of statements, in order.
pub open spec fn assigned_list(s: Seq<StructuredStmt>) -> Seq<Seq<char>>
    decreases s,
{
    if s.len() == 0 {
        Seq::empty()
    } else {
        assigned_list(s.subrange(0, s.len() - 1)) + assigned_in(s[s.len() - 1])
    }
}

/// The names assigned in the case bodies of a switch, in order.
pub open spec fn assigned_cases(cs: Seq<SwitchCaseStmt>) -> Seq<Seq<char>>
    decreases cs,
{
    if cs.len() == 0 {
        Seq::empty()
    } else {
        assigned_cases(cs.subrange(0, cs.len() - 1)) + assigned_list(
            {
                proof {
                    assert(decreases_to!(cs => cs[cs.len() - 1]));
                    assert(decreases_to!(cs[cs.len() - 1] => cs[cs.len() - 1].body));
                    assert(decreases_to!(cs[cs.len() - 1].body => cs[cs.len() - 1].body@));
                }
                cs[cs.len() - 1].body@
            },
        )
    }
}

/// The names assigned anywhere in the statements, nested bodies included.
fn collect_assigned_locals(body: &Vec<StructuredStmt>, out: &mut Vec<String>)
    ensures
        crate::text::views(final(out)@) == crate::text::views(old(out)@) + assigned_list(body@),
    decreases body,
{
    let ghost start = crate::text::views(out@);
    let mut i: usize = 0;
    proof {
        assert(body@.subrange(0, 0) =~= Seq::<StructuredStmt>::empty());
        assert(start + Seq::<Seq<char>>::empty() =~= start);
    }
    while i < body.len()
        invariant
            i <= body@.len(),
            start == crate::text::views(old(out)@),
            crate::text::views(out@) == start + assigned_list(body@.subrange(0, i as int)),
        decreases body@.len() - i,
    {
        proof {
            assert(decreases_to!(body => body@));
            assert(decreases_to!(body@ => body@[i as int]));
            let t = body@.subrange(0, i + 1);
            assert(t.subrange(0, t.len() - 1) =~= body@.subrange(0, i as int));
            assert(t[t.len() - 1] == body@[i as int]);
        }
        let ghost mid = crate::text::views(out@);
        match &body[i] {
            StructuredStmt::Assignment { target: AssignmentTarget::Identifier(name), .. } => {
                out.push(name.clone());
                proof {
                    assert(crate::text::views(out@) =~= mid + seq![name@]);
                    assert(crate::text::views(out@) =~= mid + assigned_in(body@[i as int]));
                }
            },
            StructuredStmt::If { then_body, else_body, .. } => {
                proof {
                    assert(decreases_to!(body => body@[i as int]->If_then_body));
                }
                collect_assigned_locals(then_body, out);
                let ghost mid2 = crate::text::views(out@);
                if let Some(e) = else_body {
                    proof {
                        assert(decreases_to!(body => body@[i as int]->If_else_body));
                        assert(decreases_to!(body@[i as int]->If_else_body => e));
                    }
                    collect_assigned_locals(e, out);
                }
                proof {
                    assert(crate::text::views(out@) =~= mid + assigned_in(body@[i as int]));
                }
            },
            StructuredStmt::While { body: inner } => {
                proof {
                    assert(decreases_to!(body => body@[i as int]->While_body));
                }
                collect_assigned_locals(inner, out);
                proof {
                    assert(crate::text::views(out@) =~= mid + assigned_in(body@[i as int]));
                }
            },
            StructuredStmt::Switch { cases, default_body, .. } => {
                let mut k: usize = 0;
                proof {
                    assert(cases@.subrange(0, 0) =~= Seq::<SwitchCaseStmt>::empty());
                    assert(mid + Seq::<Seq<char>>::empty() =~= mid);
                }
                while k < cases.len()
                    invariant
                        body@[i as int] matches StructuredStmt::Switch { cases: cs, .. } && cs == *cases,
                        i < body@.len(),
                        k <= cases@.len(),
                        crate::text::views(out@) == mid + assigned_cases(cases@.subrange(0, k as int)),
                    decreases cases@.len() - k,
                {
                    proof {
                        assert(decreases_to!(body => body@[i as int]->Switch_cases));
                        assert(decreases_to!(cases => cases@));
                        assert(decreases_to!(cases@ => cases@[k as int]));
                        assert(decreases_to!(cases@[k as int] => cases@[k as int].body));
                        assert(decreases_to!(body => cases@[k as int].body));
                        let t = cases@.subrange(0, k + 1);
                        assert(t.subrange(0, t.len() - 1) =~= cases@.subrange(0, k as int));
                        assert(t[t.len() - 1] == cases@[k as int]);
                    }
                    collect_assigned_locals(&cases[k].body, out);
                    k = k + 1;
                }
                proof {
                    assert(cases@.subrange(0, k as int) =~= cases@);
                }
                if let Some(d) = default_body {
                    proof {
                        assert(decreases_to!(body => body@[i as int]->Switch_default_body));
                        assert(decreases_to!(body@[i as int]->Switch_default_body => d));
                    }
                    collect_assigned_locals(d, out);
                }
                proof {
                    assert(crate::text::views(out@) =~= mid + assigned_in(body@[i as int]));
                }
            },
            _ => {
                proof {
                    assert(assigned_in(body@[i as int]) =~= Seq::<Seq<char>>::empty());
                    assert(crate::text::views(out@) =~= mid + assigned_in(body@[i as int]));
                }
            },
        }
        proof {
            assert(crate::text::views(out@) =~= start + assigned_list(body@.subrange(0, i + 1)));
        }
        i = i + 1;
    }
    proof {
        assert(body@.subrange(0, i as int) =~= body@);
    }
}

/// The count of leading `$` of `s`.
spec fn leading_dollars(s: Seq<char>) -> int
    decreases s.len(),
{
    if s.len() > 0 && s[0] == '$' {
        1 + leading_dollars(s.drop_first())
    } else {
        0
    }
}

/// The count of leading non-digits of `s`.
spec fn leading_non_digits(s: Seq<char>) -> int
    decreases s.len(),
{
    if s.len() > 0 && !('0' <= s[0] <= '9') {
        1 + leading_non_digits(s.drop_first())
    } else {
        0
    }
}

proof fn lemma_leading_dollars(s: Seq<char>, i: int)
    requires
        0 <= i <= s.len(),
        forall|j: int| 0 <= j < i ==> #[trigger] s[j] == '$',
        i < s.len() ==> s[i] != '$',
    ensures
        leading_dollars(s) == i,
    decreases s.len(),
{
    if i > 0 {
        assert forall|j: int| 0 <= j < i - 1 implies #[trigger] s.drop_first()[j] == '$' by {
            assert(s.drop_first()[j] == s[j + 1]);
        }
        lemma_leading_dollars(s.drop_first(), i - 1);
    }
}

proof fn lemma_leading_non_digits(s: Seq<char>, i: int)
    requires
        0 <= i <= s.len(),
        forall|j: int| 0 <= j < i ==> !('0' <= #[trigger] s[j] <= '9'),
        i < s.len() ==> '0' <= s[i] <= '9',
    ensures
        leading_non_digits(s) == i,
    decreases s.len(),
{
    if i > 0 {
        assert forall|j: int| 0 <= j < i - 1 implies !('0' <= #[trigger] s.drop_first()[j] <= '9') by {
            assert(s.drop_first()[j] == s[j + 1]);
        }
        lemma_leading_non_digits(s.drop_first(), i - 1);
    }
}

/// The type keyword of a `$<type><index>` name (`$int2` gives `int`):
/// the text after the leading `$`s up to the first digit.
fn local_type_keyword(rs_name: &str) -> (r: String)
    ensures
        ({
            let rest = rs_name@.skip(leading_dollars(rs_name@));
            r@ == rest.take(leading_non_digits(rest))
        }),
{
    let c = chars_of(rs_name);
    let mut lo: usize = 0;
    while lo < c.len() && c[lo] == '$'
        invariant
            lo <= c@.len(),
            forall|j: int| 0 <= j < lo ==> #[trigger] c@[j] == '$',
        decreases c@.len() - lo,
    {
        lo = lo + 1;
    }
    proof {
        lemma_leading_dollars(c@, lo as int);
    }
    let mut end: usize = lo;
    while end < c.len() && !('0' <= c[end] && c[end] <= '9')
        invariant
            lo <= end <= c@.len(),
            forall|j: int| lo <= j < end ==> !('0' <= #[trigger] c@[j] <= '9'),
        decreases c@.len() - end,
    {
        end = end + 1;
    }
    proof {
        let rest = c@.skip(lo as int);
        assert forall|j: int| 0 <= j < end - lo implies !('0' <= #[trigger] rest[j] <= '9') by {
            assert(rest[j] == c@[lo + j]);
        }
        if end < c@.len() {
            assert(rest[end - lo] == c@[end as int]);
        }
        lemma_leading_non_digits(rest, end - lo);
        assert(c@.subrange(lo as int, end as int) =~= rest.take(end - lo));
    }
    string_of(&crate::text::slice_vec(&c, lo, end))
}

/// A variable reference `%name` for `var…` names, else the name.
fn reference_name(name: &str) -> (r: String)
    ensures
        r@ == (if "var"@.is_prefix_of(name@) {
            "%"@ + name@
        } else {
            name@
        }),
{
    let c = chars_of(name);
    if starts_with(&c, "var") {
        let mut s = string_from("%");
        push_str(&mut s, name);
        s
    } else {
        string_from(name)
    }
}

/// `array_<id>` as `$arr<index>` (a raw declaration id folds to its index).
fn array_access_name(name: &str) -> (r: String)
    ensures
        r@ == (if "array_"@.is_prefix_of(name@) && crate::text::parse_in_range(
            name@.skip(6),
            false,
            0,
            u32::MAX as int,
        ) is Some {
            let n = crate::text::parse_in_range(name@.skip(6), false, 0, u32::MAX as int)->0;
            "$arr"@ + crate::text::dec_nat(
                (if n >= 65536 {
                    n / 65536
                } else {
                    n
                }) as nat,
            )
        } else if "var"@.is_prefix_of(name@) {
            "%"@ + name@
        } else {
            name@
        }),
{
    proof {
        reveal_strlit("array_");
    }
    let c = chars_of(name);
    if let Some(id) = crate::text::strip_prefix(&c, "array_") {
        if let Some(n) = crate::text::parse_u32(&id) {
            let index = if n >= 65536 {
                assert(n >> 16 == n / 65536) by (bit_vector);
                n >> 16
            } else {
                n
            };
            let mut s = string_from("$arr");
            push_u64(&mut s, index as u64);
            return s;
        }
    }
    reference_name(name)
}

/// The RuneScript type of a TypeScript type name.
spec fn rs_type_of(ts: Seq<char>) -> Seq<char> {
    if ts == "number"@ {
        "int"@
    } else if ts == "bigint"@ {
        "long"@
    } else {
        ts
    }
}

/// The RuneScript type of a TypeScript type name.
fn ts_type_to_runescript(ts: &[char]) -> (r: String)
    ensures
        r@ == rs_type_of(ts@),
{
    proof {
        reveal_strlit("number");
        reveal_strlit("bigint");
        reveal_strlit("string");
        reveal_strlit("boolean");
    }
    if chars_eq(ts, "number") {
        string_from("int")
    } else if chars_eq(ts, "bigint") {
        string_from("long")
    } else if chars_eq(ts, "string") {
        string_from("string")
    } else if chars_eq(ts, "boolean") {
        string_from("boolean")
    } else {
        string_of(ts)
    }
}

/// The RuneScript types of the non-blank parts, trimmed.
spec fn kept_types(parts: Seq<Seq<char>>) -> Seq<Seq<char>>
    decreases parts.len(),
{
    if parts.len() == 0 {
        Seq::empty()
    } else {
        let prev = kept_types(parts.drop_last());
        let t = crate::text::trim(parts.last());
        if t.len() > 0 {
            prev.push(rs_type_of(t))
        } else {
            prev
        }
    }
}

/// The return type keywords of a declared return type: none for `void` or
/// blank, else the RuneScript type of each non-blank `,`-separated part of
/// it, inside `[...]` when it is bracketed.
spec fn return_type_words(rt: Seq<char>) -> Seq<Seq<char>> {
    let t = crate::text::trim(rt);
    if t.len() == 0 || t == "void"@ {
        Seq::empty()
    } else {
        let inner = if t.len() >= 2 && t[0] == '[' && t.last() == ']' {
            t.subrange(1, t.len() - 1)
        } else {
            t
        };
        kept_types(crate::transpile::effects::split_at_char(inner, ','))
    }
}

/// The return type keywords: none for `void`, one for a plain type, one
/// per element of a `[a, b]` tuple.
fn return_types(return_type: &str) -> (r: Vec<String>)
    ensures
        crate::text::views(r@) == return_type_words(return_type@),
{
    let c = chars_of(return_type);
    let t = crate::text::trim_chars(&c);
    if t.len() == 0 || chars_eq(&t, "void") {
        return Vec::new();
    }
    let inner = if t.len() >= 2 && t[0] == '[' && t[t.len() - 1] == ']' {
        crate::text::slice_vec(&t, 1, t.len() - 1)
    } else {
        t
    };
    let parts = crate::transpile::effects::split_chars(&inner, ',');
    let ghost ps = parts.deep_view();
    let mut out: Vec<String> = Vec::new();
    let mut i: usize = 0;
    while i < parts.len()
        invariant
            i <= parts@.len(),
            ps == parts.deep_view(),
            crate::text::views(out@) == kept_types(ps.take(i as int)),
        decreases parts@.len() - i,
    {
        proof {
            assert(ps.take(i + 1).drop_last() =~= ps.take(i as int));
            assert(ps.take(i + 1).last() == parts@[i as int]@);
        }
        let part = crate::text::trim_chars(&parts[i]);
        if part.len() > 0 {
            out.push(ts_type_to_runescript(&part));
            proof {
                assert(crate::text::views(out@) =~= kept_types(ps.take(i as int)).push(rs_type_of(part@)));
            }
        }
        i = i + 1;
    }
    proof {
        assert(ps.take(i as int) =~= ps);
    }
    out
}

/// `camelCase` as `snake_case`: an `_` before each upper-case letter but
/// the first character, and the letter lower-cased.
pub open spec fn snake_of(m: Seq<char>) -> Seq<char>
    decreases m.len(),
{
    if m.len() == 0 {
        m
    } else {
        let c = m.last();
        if 'A' <= c <= 'Z' {
            snake_of(m.drop_last()) + (if m.len() > 1 {
                seq!['_']
            } else {
                Seq::empty()
            }) + seq![crate::text::lower_ascii(c)]
        } else {
            snake_of(m.drop_last()).push(c)
        }
    }
}

/// `camelCase` as `snake_case`.
fn to_snake(method: &[char]) -> (r: String)
    ensures
        r@ == snake_of(method@),
{
    let mut out = String::new();
    let mut i: usize = 0;
    while i < method.len()
        invariant
            i <= method@.len(),
            out@ == snake_of(method@.take(i as int)),
        decreases method@.len() - i,
    {
        let c = method[i];
        proof {
            assert(method@.take(i + 1).drop_last() =~= method@.take(i as int));
            assert(method@.take(i + 1).last() == c);
        }
        if 'A' <= c && c <= 'Z' {
            assert((c as u8) as int == c as int);
            assert(((c as u8) + 32) as char == crate::text::lower_ascii(c));
            if i != 0 {
                string_push(&mut out, '_');
            }
            string_push(&mut out, ((c as u8) + 32) as char);
        } else {
            string_push(&mut out, c);
        }
        i = i + 1;
    }
    proof {
        assert(method@.take(i as int) =~= method@);
    }
    out
}

/// The RuneScript precedence of a binary operator.
fn op_prec(op: BinaryOp) -> (r: i32)
    ensures
        r == crate::transpile::ast::binding_power(op),
{
    match op {
        BinaryOp::Eq | BinaryOp::Ne | BinaryOp::Lt | BinaryOp::Le | BinaryOp::Gt | BinaryOp::Ge => 40,
        BinaryOp::Or => 50,
        BinaryOp::And => 60,
        BinaryOp::Add | BinaryOp::Sub => 70,
        BinaryOp::Mul | BinaryOp::Div | BinaryOp::Mod => 80,
    }
}

/// Arithmetic and bitwise operators are `calc(...)`-wrapped; comparisons
/// are not.
fn is_calc_op(op: BinaryOp) -> (r: bool)
    ensures
        r == !crate::transpile::ast::is_comparison(op),
{
    match op {
        BinaryOp::Eq | BinaryOp::Ne | BinaryOp::Lt | BinaryOp::Le | BinaryOp::Gt | BinaryOp::Ge => false,
        _ => true,
    }
}

/// The RuneScript spelling of a binary operator, with its spaces.
pub open spec fn binary_operator_text(op: BinaryOp) -> Seq<char> {
    match op {
        BinaryOp::Add => " + "@,
        BinaryOp::Sub => " - "@,
        BinaryOp::Mul => " * "@,
        BinaryOp::Div => " / "@,
        BinaryOp::Mod => " % "@,
        BinaryOp::Eq => " = "@,
        BinaryOp::Ne => " ! "@,
        BinaryOp::Lt => " < "@,
        BinaryOp::Le => " <= "@,
        BinaryOp::Gt => " > "@,
        BinaryOp::Ge => " >= "@,
        BinaryOp::And => " & "@,
        BinaryOp::Or => " | "@,
    }
}

/// The RuneScript spelling of a binary operator, with its spaces.
fn binary_operator(op: BinaryOp) -> (r: &'static str)
    ensures
        r@ == binary_operator_text(op),
{
    match op {
        BinaryOp::Add => " + ",
        BinaryOp::Sub => " - ",
        BinaryOp::Mul => " * ",
        BinaryOp::Div => " / ",
        BinaryOp::Mod => " % ",
        BinaryOp::Eq => " = ",
        BinaryOp::Ne => " ! ",
        BinaryOp::Lt => " < ",
        BinaryOp::Le => " <= ",
        BinaryOp::Gt => " > ",
        BinaryOp::Ge => " >= ",
        BinaryOp::And => " & ",
        BinaryOp::Or => " | ",
    }
}

/// Below this surrounding precedence an arithmetic operation is wrapped in
/// `calc(...)`.
const CALC_THRESHOLD: i32 = 50;

/// The precedence of a unary operand: never parenthesized.
const HIGH_PREC: i32 = 100;

/// How a binary operation with operator `op`, whose operands are written
/// `inner`, stands where the surrounding operator binds with `prec`: an
/// arithmetic or bitwise operation at the top of an expression (below
/// `|`) inside `calc(...)`, an operation binding looser than its
/// surroundings in parentheses, any other as it is.
pub open spec fn group_text(op: BinaryOp, prec: int, inner: Seq<char>) -> Seq<char> {
    if !crate::transpile::ast::is_comparison(op) && prec < 50 {
        "calc("@ + inner + ")"@
    } else if prec > crate::transpile::ast::binding_power(op) {
        "("@ + inner + ")"@
    } else {
        inner
    }
}

/// `t` is how the renderer writes `e` where the surrounding operator binds
/// with `prec`, as far as its grouping goes: a binary operation is some
/// text grouped by `group_text`. Other expressions are not described here.
pub open spec fn grouped(e: Expression, prec: int, t: Seq<char>) -> bool {
    match e {
        Expression::BinaryOperation(bin) => exists|inner: Seq<char>| t == #[trigger] group_text(bin.op, prec, inner),
        _ => true,
    }
}

/// `t` is how the renderer writes the binary operation `bin` where the
/// surrounding operator binds with `prec`: its left operand (written where
/// its own operator binds), its operator, and its right operand (written
/// one step tighter), grouped by `group_text`.
pub open spec fn rendered_binary(bin: crate::transpile::ast::BinaryOperation, prec: int, t: Seq<char>) -> bool {
    exists|l: Seq<char>, r: Seq<char>|
        #![trigger grouped(*bin.left, crate::transpile::ast::binding_power(bin.op), l), grouped(*bin.right, crate::transpile::ast::binding_power(bin.op) + 1, r)]
        grouped(*bin.left, crate::transpile::ast::binding_power(bin.op), l) && grouped(
            *bin.right,
            crate::transpile::ast::binding_power(bin.op) + 1,
            r,
        ) && t == group_text(bin.op, prec, l + binary_operator_text(bin.op) + r)
}

/// Rendering keeps the grouping of operations: in a binary operation whose
/// left operand is an operation that binds looser (by the binding order of
/// `lemma_binding_order`), or whose right operand is an operation that
/// binds no tighter, that operand is written in parentheses, next to the
/// operator.
pub proof fn lemma_rendering_keeps_grouping(bin: crate::transpile::ast::BinaryOperation, prec: int, t: Seq<char>)
    requires
        rendered_binary(bin, prec, t),
    ensures
        exists|l: Seq<char>, r: Seq<char>|
            #![trigger grouped(*bin.left, crate::transpile::ast::binding_power(bin.op), l), grouped(*bin.right, crate::transpile::ast::binding_power(bin.op) + 1, r)]
            {
                &&& grouped(*bin.left, crate::transpile::ast::binding_power(bin.op), l)
                &&& grouped(*bin.right, crate::transpile::ast::binding_power(bin.op) + 1, r)
                &&& t == group_text(bin.op, prec, l + binary_operator_text(bin.op) + r)
                &&& (*bin.left matches Expression::BinaryOperation(lb) && binds_looser(lb.op, bin.op)) ==> (
                l.len() >= 2 && l[0] == '(' && l.last() == ')')
                &&& (*bin.right matches Expression::BinaryOperation(rb) && !binds_looser(bin.op, rb.op)) ==> (
                r.len() >= 2 && r[0] == '(' && r.last() == ')')
            },
{
    reveal_strlit("(");
    reveal_strlit(")");
    let bp = crate::transpile::ast::binding_power(bin.op);
    let (l, r) = choose|l: Seq<char>, r: Seq<char>|
        grouped(*bin.left, bp, l) && grouped(*bin.right, bp + 1, r) && t == group_text(
            bin.op,
            prec,
            l + binary_operator_text(bin.op) + r,
        );
    if let Expression::BinaryOperation(lb) = *bin.left {
        if binds_looser(lb.op, bin.op) {
            lemma_looser_binds_less(lb.op, bin.op);
            let inner = choose|inner: Seq<char>| l == #[trigger] group_text(lb.op, bp, inner);
            assert(l =~= "("@ + inner + ")"@);
            assert(l[0] == '(' && l.last() == ')');
        }
    }
    if let Expression::BinaryOperation(rb) = *bin.right {
        if !binds_looser(bin.op, rb.op) {
            lemma_not_looser(bin.op, rb.op);
            let inner = choose|inner: Seq<char>| r == #[trigger] group_text(rb.op, bp + 1, inner);
            if !crate::transpile::ast::is_comparison(rb.op) {
                assert(bp >= 50);
            }
            assert(r =~= "("@ + inner + ")"@);
            assert(r[0] == '(' && r.last() == ')');
        }
    }
    assert(grouped(*bin.left, bp, l) && grouped(*bin.right, bp + 1, r));
}

/// The operator groups, loosest first: comparisons, `|`, `&`, additive,
/// multiplicative.
pub open spec fn operator_group(op: BinaryOp) -> int {
    if crate::transpile::ast::is_comparison(op) {
        0
    } else if op is Or {
        1
    } else if op is And {
        2
    } else if crate::transpile::ast::is_additive(op) {
        3
    } else {
        4
    }
}

/// `a` binds looser than `b`: its group comes earlier.
pub open spec fn binds_looser(a: BinaryOp, b: BinaryOp) -> bool {
    operator_group(a) < operator_group(b)
}

proof fn lemma_looser_binds_less(a: BinaryOp, b: BinaryOp)
    requires
        binds_looser(a, b),
    ensures
        crate::transpile::ast::binding_power(a) < crate::transpile::ast::binding_power(b),
        crate::transpile::ast::binding_power(b) >= 50,
{
    crate::transpile::ast::lemma_binding_order(b, a);
}

proof fn lemma_not_looser(a: BinaryOp, b: BinaryOp)
    requires
        !binds_looser(a, b),
    ensures
        crate::transpile::ast::binding_power(b) <= crate::transpile::ast::binding_power(a),
{
    crate::transpile::ast::lemma_binding_order(a, b);
    crate::transpile::ast::lemma_binding_order(b, a);
}

/// The renderer's state.
/// `n` levels of four-space indentation.
spec fn spaces(n: nat) -> Seq<char>
    decreases n,
{
    if n == 0 {
        Seq::empty()
    } else {
        spaces((n - 1) as nat) + "    "@
    }
}

/// Declaring, in order, each local of `names` that is never assigned and
/// has a RuneScript name not yet declared: the declared names after, and
/// the `def_<type> <name>;` lines written.
spec fn decls_fold(
    names: Seq<Seq<char>>,
    assigned: Seq<Seq<char>>,
    table: Seq<(Seq<char>, Seq<char>)>,
    declared: Seq<Seq<char>>,
) -> (Seq<Seq<char>>, Seq<char>)
    decreases names.len(),
{
    if names.len() == 0 {
        (declared, Seq::empty())
    } else {
        let prev = decls_fold(names.drop_last(), assigned, table, declared);
        let name = names.last();
        if assigned.contains(name) {
            prev
        } else {
            match first_binding(table, name) {
                Some(rs) => if prev.0.contains(rs) {
                    prev
                } else {
                    let rest = rs.skip(leading_dollars(rs));
                    (
                        prev.0.push(rs),
                        prev.1 + spaces(0) + "def_"@ + rest.take(leading_non_digits(rest)) + " "@ + rs + ";"@
                            + "\n"@,
                    )
                },
                None => prev,
            }
        }
    }
}

struct Emitter<'a> {
    ctx: &'a RuneScriptContext,
    renamer: &'a LocalRenamer,
    declared: Vec<String>,
    imports: Vec<String>,
    out: String,
}

fn lookup_str<'b>(table: &'b Vec<(String, String)>, key: &str) -> (r: Option<&'b String>)
    ensures
        match r {
            Some(v) => first_binding(pair_view(table@), key@) == Some(v@),
            None => first_binding(pair_view(table@), key@) is None,
        },
{
    let k = chars_of(key);
    lookup(table, &k)
}

impl<'a> Emitter<'a> {
    /// Records `name` as declared; whether it was new.
    fn declare(&mut self, name: &str) -> (r: bool)
        ensures
            r == !crate::text::views(old(self).declared@).contains(name@),
            crate::text::views(final(self).declared@) == (if r {
                crate::text::views(old(self).declared@).push(name@)
            } else {
                crate::text::views(old(self).declared@)
            }),
            final(self).out == old(self).out,
            final(self).imports == old(self).imports,
            final(self).ctx == old(self).ctx,
            final(self).renamer == old(self).renamer,
    {
        proof {
            let v = crate::text::views(self.declared@);
            if v.contains(name@) {
                let j = choose|j: int| 0 <= j < v.len() && v[j] == name@;
                assert(self.declared@[j]@ == name@);
            }
        }
        if contains_name(&self.declared, name) {
            proof {
                let j = choose|j: int| 0 <= j < self.declared@.len() && self.declared@[j]@ == name@;
                assert(crate::text::views(self.declared@)[j] == name@);
            }
            false
        } else {
            let ghost before = self.declared@;
            self.declared.push(string_from(name));
            proof {
                assert(crate::text::views(self.declared@) =~= crate::text::views(before).push(name@));
                assert forall|j: int| 0 <= j < before.len() implies crate::text::views(before)[j] != name@ by {
                    assert(crate::text::views(before)[j] == before[j]@);
                }
            }
            true
        }
    }

    fn line(&mut self, indent: usize, text: &str)
        ensures
            final(self).out@ == old(self).out@ + spaces(indent as nat) + text@ + "\n"@,
            final(self).declared == old(self).declared,
            final(self).imports == old(self).imports,
            final(self).ctx == old(self).ctx,
            final(self).renamer == old(self).renamer,
    {
        let mut i: usize = 0;
        while i < indent
            invariant
                i <= indent,
                self.out@ == old(self).out@ + spaces(i as nat),
                self.declared == old(self).declared,
                self.imports == old(self).imports,
                self.ctx == old(self).ctx,
                self.renamer == old(self).renamer,
            decreases indent - i,
        {
            push_str(&mut self.out, "    ");
            proof {
                assert(self.out@ =~= old(self).out@ + spaces((i + 1) as nat));
            }
            i = i + 1;
        }
        push_str(&mut self.out, text);
        push_str(&mut self.out, "\n");
    }

    fn write_header(&mut self, script: &StructuredScript) {
        let mut params = String::new();
        let mut i: usize = 0;
        while i < self.renamer.arguments.len()
            decreases self.renamer.arguments@.len() - i,
        {
            if i > 0 {
                push_str(&mut params, ", ");
            }
            push_str(&mut params, self.renamer.arguments[i].0.as_str());
            push_str(&mut params, " ");
            push_str(&mut params, self.renamer.arguments[i].1.as_str());
            i = i + 1;
        }
        let rets = return_types(script.return_type.as_str());
        let mut ret_list = String::new();
        let mut i: usize = 0;
        while i < rets.len()
            decreases rets@.len() - i,
        {
            if i > 0 {
                push_str(&mut ret_list, ", ");
            }
            push_str(&mut ret_list, rets[i].as_str());
            i = i + 1;
        }
        push_str(&mut self.out, script.function_name.as_str());
        if self.renamer.arguments.len() > 0 || rets.len() > 0 {
            push_str(&mut self.out, "(");
            push_str(&mut self.out, params.as_str());
            push_str(&mut self.out, ")");
        }
        if rets.len() > 0 {
            push_str(&mut self.out, "(");
            push_str(&mut self.out, ret_list.as_str());
            push_str(&mut self.out, ")");
        }
        push_str(&mut self.out, "\n");
    }

    fn write_unassigned_local_decls(&mut self, script: &StructuredScript, assigned: &Vec<String>)
        ensures
            ({
                let res = decls_fold(
                    script.locals@.map_values(|l: crate::transpile::ast::LocalVariable| l.name@),
                    crate::text::views(assigned@),
                    pair_view(old(self).renamer.names@),
                    crate::text::views(old(self).declared@),
                );
                &&& crate::text::views(final(self).declared@) == res.0
                &&& final(self).out@ == old(self).out@ + res.1
            }),
            final(self).renamer == old(self).renamer,
            final(self).ctx == old(self).ctx,
            final(self).imports == old(self).imports,
    {
        let ghost ln = script.locals@.map_values(|l: crate::transpile::ast::LocalVariable| l.name@);
        let ghost av = crate::text::views(assigned@);
        let ghost nm = pair_view(self.renamer.names@);
        let ghost d0 = crate::text::views(self.declared@);
        let ghost o0 = self.out@;
        let mut i: usize = 0;
        while i < script.locals.len()
            invariant
                i <= script.locals@.len(),
                ln == script.locals@.map_values(|l: crate::transpile::ast::LocalVariable| l.name@),
                av == crate::text::views(assigned@),
                nm == pair_view(self.renamer.names@),
                self.renamer == old(self).renamer,
                self.ctx == old(self).ctx,
                self.imports == old(self).imports,
                d0 == crate::text::views(old(self).declared@),
                o0 == old(self).out@,
                crate::text::views(self.declared@) == decls_fold(ln.take(i as int), av, nm, d0).0,
                self.out@ == o0 + decls_fold(ln.take(i as int), av, nm, d0).1,
            decreases script.locals@.len() - i,
        {
            proof {
                assert(ln.take(i + 1).drop_last() =~= ln.take(i as int));
                assert(ln.take(i + 1).last() == script.locals@[i as int].name@);
                assert(av.contains(ln[i as int]) == exists|j: int| 0 <= j < assigned@.len() && assigned@[j]@ == ln[i as int])
                    by {
                    if av.contains(ln[i as int]) {
                        let j = choose|j: int| 0 <= j < av.len() && av[j] == ln[i as int];
                        assert(assigned@[j]@ == ln[i as int]);
                    }
                    if exists|j: int| 0 <= j < assigned@.len() && assigned@[j]@ == ln[i as int] {
                        let j = choose|j: int| 0 <= j < assigned@.len() && assigned@[j]@ == ln[i as int];
                        assert(av[j] == ln[i as int]);
                    }
                }
            }
            let ghost dd = crate::text::views(self.declared@);
            let ghost oo = self.out@;
            let name = &script.locals[i].name;
            if !contains_name(assigned, name.as_str()) {
                if let Some(rs) = lookup_str(&self.renamer.names, name.as_str()) {
                    let rs = rs.clone();
                    if self.declare(rs.as_str()) {
                        let ty = local_type_keyword(rs.as_str());
                        let mut l = string_from("def_");
                        push_str(&mut l, ty.as_str());
                        push_str(&mut l, " ");
                        push_str(&mut l, rs.as_str());
                        push_str(&mut l, ";");
                        self.line(0, l.as_str());
                    }
                }
            }
            proof {
                assert(crate::text::views(self.declared@) == decls_fold(ln.take(i + 1), av, nm, d0).0);
                assert(self.out@ =~= o0 + decls_fold(ln.take(i + 1), av, nm, d0).1);
            }
            i = i + 1;
        }
        proof {
            assert(ln.take(i as int) =~= ln);
        }
    }

    fn write_block(&mut self, stmts: &Vec<StructuredStmt>, indent: usize)
        decreases stmts, 1nat,
    {
        let mut i: usize = 0;
        while i < stmts.len()
            decreases stmts@.len() - i,
        {
            proof {
                assert(decreases_to!(stmts => stmts@));
                assert(decreases_to!(stmts@ => stmts@[i as int]));
            }
            self.write_stmt(&stmts[i], indent);
            i = i + 1;
        }
    }

    fn write_stmt(&mut self, stmt: &StructuredStmt, indent: usize)
        decreases stmt, 0nat,
    {
        let deeper = indent.saturating_add(1);
        match stmt {
            StructuredStmt::While { body } => {
                self.line(indent, "while (true) {");
                proof {
                    assert(decreases_to!(*stmt => stmt->While_body));
                }
                self.write_block(body, deeper);
                self.line(indent, "}");
            },
            StructuredStmt::If { condition, then_body, else_body } => {
                let mut head = string_from("if (");
                let c = self.expr(condition, 0);
                push_str(&mut head, c.as_str());
                push_str(&mut head, ") {");
                self.line(indent, head.as_str());
                proof {
                    assert(decreases_to!(*stmt => stmt->If_then_body));
                }
                self.write_block(then_body, deeper);
                if let Some(e) = else_body {
                    self.line(indent, "} else {");
                    proof {
                        assert(decreases_to!(*stmt => stmt->If_else_body));
                        assert(decreases_to!(stmt->If_else_body => e));
                    }
                    self.write_block(e, deeper);
                }
                self.line(indent, "}");
            },
            StructuredStmt::Switch { expr, cases, default_body } => {
                let mut head = string_from("switch_int (");
                let c = self.expr(expr, 0);
                push_str(&mut head, c.as_str());
                push_str(&mut head, ") {");
                self.line(indent, head.as_str());
                let mut k: usize = 0;
                while k < cases.len()
                    invariant
                        *stmt matches StructuredStmt::Switch { cases: cs, .. } && cs == *cases,
                    decreases cases@.len() - k,
                {
                    let mut l = string_from("case ");
                    push_i64(&mut l, cases[k].value as i64);
                    push_str(&mut l, " :");
                    self.line(deeper, l.as_str());
                    proof {
                        assert(decreases_to!(*stmt => stmt->Switch_cases));
                        assert(decreases_to!(cases => cases@));
                        assert(decreases_to!(cases@ => cases@[k as int]));
                        assert(decreases_to!(cases@[k as int] => cases@[k as int].body));
                        assert(decreases_to!(*stmt => cases@[k as int].body));
                    }
                    self.write_block(&cases[k].body, deeper.saturating_add(1));
                    k = k + 1;
                }
                if let Some(d) = default_body {
                    self.line(deeper, "case default :");
                    proof {
                        assert(decreases_to!(*stmt => stmt->Switch_default_body));
                        assert(decreases_to!(stmt->Switch_default_body => d));
                    }
                    self.write_block(d, deeper.saturating_add(1));
                }
                self.line(indent, "}");
            },
            StructuredStmt::Assignment { target, value } => {
                let rhs = self.expr(value, 0);
                let mut l = self.assignment_target(target);
                push_str(&mut l, " = ");
                push_str(&mut l, rhs.as_str());
                push_str(&mut l, ";");
                self.line(indent, l.as_str());
            },
            StructuredStmt::Expr { expr } => {
                let mut l = self.expr(expr, 0);
                push_str(&mut l, ";");
                self.line(indent, l.as_str());
            },
            StructuredStmt::Goto { target } => {
                let mut l = string_from("goto(");
                push_u64(&mut l, *target as u64);
                push_str(&mut l, ");");
                self.line(indent, l.as_str());
            },
            StructuredStmt::StackGoto { target, values } => {
                let mut l = string_from("stackpush_then(");
                let parts = self.arguments(values);
                push_str(&mut l, parts.as_str());
                push_str(&mut l, ", goto(");
                push_u64(&mut l, *target as u64);
                push_str(&mut l, "));");
                self.line(indent, l.as_str());
            },
            StructuredStmt::Label { target } => {
                let mut l = string_from("label(");
                push_u64(&mut l, *target as u64);
                push_str(&mut l, ");");
                self.line(indent, l.as_str());
            },
            StructuredStmt::Return { value } => match value {
                Some(v) => {
                    let mut l = string_from("return(");
                    let t = self.expr(v, 0);
                    push_str(&mut l, t.as_str());
                    push_str(&mut l, ");");
                    self.line(indent, l.as_str());
                },
                None => self.line(indent, "return;"),
            },
            StructuredStmt::Comment(text) => {
                let mut l = string_from("// ");
                push_str(&mut l, text.as_str());
                self.line(indent, l.as_str());
            },
            StructuredStmt::Break => self.line(indent, "break;"),
            StructuredStmt::Continue => self.line(indent, "continue;"),
        }
    }

    /// The target of an assignment; a local's first assignment declares
    /// it with `def_<type>`.
    fn assignment_target(&mut self, target: &AssignmentTarget) -> (r: String) {
        match target {
            AssignmentTarget::Identifier(name) => {
                match lookup_str(&self.renamer.names, name.as_str()) {
                    Some(rs) => {
                        let rs = rs.clone();
                        if self.declare(rs.as_str()) {
                            let mut s = string_from("def_");
                            let ty = local_type_keyword(rs.as_str());
                            push_str(&mut s, ty.as_str());
                            push_str(&mut s, " ");
                            push_str(&mut s, rs.as_str());
                            return s;
                        }
                        rs
                    },
                    None => reference_name(name.as_str()),
                }
            },
            AssignmentTarget::ArrayAccess { array, index } => {
                let mut arr = match lookup_str(&self.renamer.arrays, array.as_str()) {
                    Some(a) => a.clone(),
                    None => array_access_name(array.as_str()),
                };
                push_str(&mut arr, "(");
                let i = self.expr(index, 0);
                push_str(&mut arr, i.as_str());
                push_str(&mut arr, ")");
                arr
            },
            AssignmentTarget::Opaque(name) => name.clone(),
        }
    }

    fn arguments(&self, arguments: &Vec<Expression>) -> (r: String)
        decreases arguments, 1nat,
    {
        let mut out = String::new();
        let mut i: usize = 0;
        while i < arguments.len()
            decreases arguments@.len() - i,
        {
            if i > 0 {
                push_str(&mut out, ", ");
            }
            proof {
                assert(decreases_to!(arguments => arguments@));
                assert(decreases_to!(arguments@ => arguments@[i as int]));
            }
            let t = self.expr(&arguments[i], 0);
            push_str(&mut out, t.as_str());
            i = i + 1;
        }
        out
    }

    fn identifier(&self, name: &str) -> (r: String)
        ensures
            r@ == (match first_binding(pair_view(self.renamer.names@), name@) {
                Some(v) => v,
                None => match first_binding(pair_view(self.renamer.arrays@), name@) {
                    Some(v) => v,
                    None => if "var"@.is_prefix_of(name@) {
                        "%"@ + name@
                    } else {
                        name@
                    },
                },
            }),
    {
        match lookup_str(&self.renamer.names, name) {
            Some(rs) => rs.clone(),
            None => match lookup_str(&self.renamer.arrays, name) {
                Some(rs) => rs.clone(),
                None => reference_name(name),
            },
        }
    }

    /// An expression at surrounding precedence `prec`.
    fn expr(&self, expr: &Expression, prec: i32) -> (r: String)
        ensures
            grouped(*expr, prec as int, r@),
            *expr matches Expression::BinaryOperation(bin) ==> rendered_binary(bin, prec as int, r@),
        decreases expr, 3nat,
    {
        match expr {
            Expression::NumberLiteral(n) => crate::text::fmt_i64(n.value as i64),
            Expression::BigIntLiteral(n) => {
                let mut s = crate::text::fmt_i64(n.value);
                push_str(&mut s, "L");
                s
            },
            Expression::StringLiteral(v) => {
                let mut s = string_from("\"");
                push_escaped(&mut s, v.value.as_str());
                push_str(&mut s, "\"");
                s
            },
            Expression::BooleanLiteral(b) => if b.value {
                string_from("true")
            } else {
                string_from("false")
            },
            Expression::Identifier(id) => self.identifier(id.name.as_str()),
            Expression::PropertyAccess(access) => {
                let mut s = match &*access.object {
                    Expression::Identifier(obj) => obj.name.clone(),
                    _ => self.expr(&access.object, 0),
                };
                push_str(&mut s, ".");
                push_str(&mut s, access.property.as_str());
                s
            },
            Expression::ArrayAccess(access) => {
                let mut arr = match &*access.array {
                    Expression::Identifier(id) => match lookup_str(&self.renamer.arrays, id.name.as_str()) {
                        Some(a) => a.clone(),
                        None => array_access_name(id.name.as_str()),
                    },
                    _ => self.expr(&access.array, 0),
                };
                push_str(&mut arr, "(");
                let i = self.expr(&access.index, 0);
                push_str(&mut arr, i.as_str());
                push_str(&mut arr, ")");
                arr
            },
            Expression::Call(call) => {
                proof {
                    assert(decreases_to!(*expr => expr->Call_0));
                    assert(decreases_to!(expr->Call_0 => expr->Call_0.arguments));
                }
                self.call(expr, call)
            },
            Expression::CallbackLiteral(cb) => {
                proof {
                    assert(decreases_to!(*expr => expr->CallbackLiteral_0));
                    assert(decreases_to!(expr->CallbackLiteral_0 => expr->CallbackLiteral_0.arguments));
                }
                let args = self.arguments(&cb.arguments);
                let mut s = string_from("callback(\"");
                push_escaped(&mut s, cb.script.as_str());
                push_str(&mut s, "\", [");
                push_str(&mut s, args.as_str());
                push_str(&mut s, "], [");
                push_joined_names(&mut s, &cb.watchers);
                push_str(&mut s, "], \"");
                push_escaped(&mut s, cb.raw_descriptor.as_str());
                push_str(&mut s, "\")");
                s
            },
            Expression::BinaryOperation(bin) => {
                let p = op_prec(bin.op);
                let mut inner = self.expr(&bin.left, p);
                let ghost lt = inner@;
                push_str(&mut inner, binary_operator(bin.op));
                let r = self.expr(&bin.right, p + 1);
                push_str(&mut inner, r.as_str());
                proof {
                    assert(grouped(*bin.left, crate::transpile::ast::binding_power(bin.op), lt));
                    assert(grouped(*bin.right, crate::transpile::ast::binding_power(bin.op) + 1, r@));
                    assert(inner@ =~= lt + binary_operator_text(bin.op) + r@);
                }
                let ghost inner_v = inner@;
                let out = if is_calc_op(bin.op) && prec < CALC_THRESHOLD {
                    let mut s = string_from("calc(");
                    push_str(&mut s, inner.as_str());
                    push_str(&mut s, ")");
                    proof {
                        assert(s@ =~= "calc("@ + inner_v + ")"@);
                    }
                    s
                } else if prec > p {
                    let mut s = string_from("(");
                    push_str(&mut s, inner.as_str());
                    push_str(&mut s, ")");
                    proof {
                        assert(s@ =~= "("@ + inner_v + ")"@);
                    }
                    s
                } else {
                    inner
                };
                proof {
                    assert(out@ == group_text(bin.op, prec as int, lt + binary_operator_text(bin.op) + r@));
                    assert(rendered_binary(*bin, prec as int, out@));
                    assert(grouped(*expr, prec as int, out@));
                }
                out
            },
            Expression::UnaryOperation(un) => {
                let mut s = match un.op {
                    UnaryOp::Neg => string_from("-"),
                    UnaryOp::Not => string_from("!"),
                };
                let o = self.expr(&un.operand, HIGH_PREC);
                push_str(&mut s, o.as_str());
                s
            },
            Expression::PushOperation(push) => self.expr(&push.value, prec),
            Expression::PopOperation(_) => string_from("pop()"),
            Expression::GotoExpr(g) => {
                let mut s = string_from("goto(");
                push_u64(&mut s, g.target as u64);
                push_str(&mut s, ")");
                s
            },
        }
    }

    /// A call: `UI.<method>` as its `cc_`/`if_` command, `pop()`, array
    /// definitions, `~script` gosubs, and commands by canonical name.
    fn call(&self, owner: &Expression, call: &CallExpr) -> (r: String)
        requires
            decreases_to!(*owner => call.arguments),
            owner matches Expression::Call(c) && c == *call,
        decreases owner, 2nat,
    {
        let name = match &*call.callee {
            Expression::Identifier(callee) => callee.name.as_str(),
            Expression::PropertyAccess(access) => {
                if let Expression::Identifier(obj) = &*access.object {
                    if str_eq(obj.name.as_str(), "UI") {
                        return self.ui_call(owner, access.property.as_str(), &call.arguments);
                    }
                }
                proof {
                    assert(decreases_to!(*owner => owner->Call_0));
                    assert(decreases_to!(owner->Call_0 => owner->Call_0.callee));
                }
                let mut s = self.expr(&call.callee, 0);
                push_str(&mut s, "(");
                let a = self.arguments(&call.arguments);
                push_str(&mut s, a.as_str());
                push_str(&mut s, ")");
                return s;
            },
            _ => {
                proof {
                    assert(decreases_to!(*owner => owner->Call_0));
                    assert(decreases_to!(owner->Call_0 => owner->Call_0.callee));
                }
                let mut s = self.expr(&call.callee, 0);
                push_str(&mut s, "(");
                let a = self.arguments(&call.arguments);
                push_str(&mut s, a.as_str());
                push_str(&mut s, ")");
                return s;
            },
        };
        if str_eq(name, "pop") && call.arguments.len() == 0 {
            return string_from("pop()");
        }
        let nc = chars_of(name);
        if let Some(rest) = crate::text::strip_prefix(&nc, "define_array_") {
            return self.define_array(owner, &rest, &call.arguments);
        }
        if contains_name(&self.imports, name) || (self.ctx.is_script(name) && !self.ctx.is_canonical_command(
            name,
        )) {
            let mut s = string_from("~");
            push_str(&mut s, name);
            if call.arguments.len() > 0 {
                push_str(&mut s, "(");
                let a = self.arguments(&call.arguments);
                push_str(&mut s, a.as_str());
                push_str(&mut s, ")");
            }
            return s;
        }
        let mut s = match self.ctx.canonical_command(&nc) {
            Some(c) => c.clone(),
            None => string_from(name),
        };
        push_str(&mut s, "(");
        let a = self.arguments(&call.arguments);
        push_str(&mut s, a.as_str());
        push_str(&mut s, ")");
        s
    }

    /// `UI.<method>(..)` as its command: a few methods by name, the rest by
    /// the registry (capitalized methods take the `if_` form), falling
    /// back to `cc_`/`if_` plus the method in snake case.
    fn ui_call(&self, owner: &Expression, method: &str, arguments: &Vec<Expression>) -> (r: String)
        requires
            decreases_to!(*owner => *arguments),
        decreases owner, 1nat,
    {
        let n = arguments.len();
        let explicit: Option<&'static str> = if str_eq(method, "getText") {
            Some("if_gettext")
        } else if str_eq(method, "findInterface") {
            Some("if_find")
        } else if str_eq(method, "sendToFront") {
            Some(
                if n == 1 {
                    "if_sendtofront"
                } else {
                    "cc_sendtofront"
                },
            )
        } else if str_eq(method, "sendToBack") {
            Some(
                if n == 1 {
                    "if_sendtoback"
                } else {
                    "cc_sendtoback"
                },
            )
        } else {
            None
        };
        let mc = chars_of(method);
        let mut canonical = match explicit {
            Some(cmd) => string_from(cmd),
            None => {
                let if_form = mc.len() > 0 && 'A' <= mc[0] && mc[0] <= 'Z';
                match self.ctx.ui_command(&mc, if_form) {
                    Some(c) => c,
                    None => {
                        let mut s = string_from(
                            if if_form {
                                "if_"
                            } else {
                                "cc_"
                            },
                        );
                        let snake = to_snake(&mc);
                        push_str(&mut s, snake.as_str());
                        s
                    },
                }
            },
        };
        push_str(&mut canonical, "(");
        let a = self.arguments(arguments);
        push_str(&mut canonical, a.as_str());
        push_str(&mut canonical, ")");
        canonical
    }

    /// `def_int $arr<i>[_<type>](size)` for `define_array_<raw>(size)`.
    fn define_array(&self, owner: &Expression, raw: &Vec<char>, arguments: &Vec<Expression>) -> (r: String)
        requires
            decreases_to!(*owner => *arguments),
        decreases owner, 1nat,
    {
        let mut key = string_from("array_");
        push_chars(&mut key, raw);
        let mut arr = match lookup_str(&self.renamer.arrays, key.as_str()) {
            Some(a) => a.clone(),
            None => {
                let mut s = string_from("$arr_");
                push_chars(&mut s, raw);
                s
            },
        };
        let type_low = match crate::text::parse_u32(raw) {
            Some(r) => r & 0xffff,
            None => 0,
        };
        if type_low != 0 {
            push_str(&mut arr, "_");
            push_u64(&mut arr, type_low as u64);
        }
        let size = if arguments.len() > 0 {
            proof {
                assert(decreases_to!(*arguments => arguments@));
                assert(decreases_to!(arguments@ => arguments@[0]));
            }
            self.expr(&arguments[0], 0)
        } else {
            String::new()
        };
        let mut s = string_from("def_int ");
        push_str(&mut s, arr.as_str());
        push_str(&mut s, "(");
        push_str(&mut s, size.as_str());
        push_str(&mut s, ")");
        s
    }
}

/// The script as RuneScript: header, declarations of locals never
/// assigned, then the body.
pub fn render_runescript(script: &StructuredScript, ctx: &RuneScriptContext) -> (r: String) {
    let renamer = build_renamer(script);
    let mut assigned: Vec<String> = Vec::new();
    collect_assigned_locals(&script.body, &mut assigned);
    let mut imports: Vec<String> = Vec::new();
    let mut i: usize = 0;
    while i < script.imports.len()
        decreases script.imports@.len() - i,
    {
        let names = &script.imports[i].named_exports;
        let mut j: usize = 0;
        while j < names.len()
            decreases names@.len() - j,
        {
            imports.push(names[j].clone());
            j = j + 1;
        }
        i = i + 1;
    }
    let mut declared: Vec<String> = Vec::new();
    let mut k: usize = 0;
    while k < renamer.arguments.len()
        decreases renamer.arguments@.len() - k,
    {
        declared.push(renamer.arguments[k].1.clone());
        k = k + 1;
    }
    let mut emitter = Emitter { ctx, renamer: &renamer, declared, imports, out: String::new() };
    emitter.write_header(script);
    emitter.write_unassigned_local_decls(script, &assigned);
    emitter.write_block(&script.body, 0);
    emitter.out
}

} // verus!
