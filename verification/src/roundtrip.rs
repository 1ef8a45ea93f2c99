//! The assembly form is lossless: parsing the text `script_to_asm` writes
//! gives the script back (with zero opcodes, which the text does not hold),
//! for every script whose commands and operands the form can spell.
use crate::pragma::{
    asm_lines, asm_text, header_lines, initial_state, parse_pragma_spec, pragma_hits_lone_quote,
    code_lines, instr_lines, pragma_fold, case_lines, apply_count, apply_counts, counts_text, case_line, flush, line_slices_lone_quote, pragma_content, pragma_step, split_instruction,
    PragmaState, escape_name, escape_str, escape_str_char, fmt_instruction, fmt_operand, join_lines,
    lemma_join_concat, p_i32, p_i64, p_u16, parse_constant_string_spec, parse_fixed_var_spec,
    parse_fixed_varbit_spec, parse_operand_spec, parse_operand_spec_other, parse_var_spec,
    parse_varbit_spec, transmog_suffix, unescape_name,
    unescape_str, unquote,
};
use crate::script::{
    ScriptV, operand_kind, InstructionV, OperandKind, OperandV, SwitchCase, VarBitRef, VarRef,
};
use crate::text::{
    all_digits, dec_int, dec_nat, find_sub, index_of, is_digit, is_ws, lemma_dec_nat_digits,
    lemma_find_sub_bound, lemma_i64_text_roundtrip, line_text, lines_spec, replace_spec, split_ws,
    split_ws_acc, trim, trim_start,
};
use crate::vars::{domain_label, lemma_domain_label_roundtrip, VarDomain};
use vstd::prelude::*;

verus! {

// ---------------------------------------------------------------------------
// Character-level facts
// ---------------------------------------------------------------------------

/// No character of `s` is whitespace.
pub open spec fn no_ws(s: Seq<char>) -> bool {
    forall|i: int| 0 <= i < s.len() ==> !#[trigger] is_ws(s[i])
}

/// `c` does not occur in `s`.
pub open spec fn lacks(s: Seq<char>, c: char) -> bool {
    forall|i: int| 0 <= i < s.len() ==> #[trigger] s[i] != c
}

/// A text that starts and ends with a non-whitespace character is its own
/// trim.
proof fn lemma_trim_id(x: Seq<char>)
    requires
        x.len() > 0,
        !is_ws(x[0]),
        !is_ws(x.last()),
    ensures
        trim(x) == x,
{
    assert(trim_start(x) == x);
}

proof fn lemma_index_of_concat(a: Seq<char>, b: Seq<char>, c: char)
    requires
        lacks(a, c),
    ensures
        index_of(a + b, c) == a.len() + index_of(b, c),
    decreases a.len(),
{
    if a.len() > 0 {
        assert((a + b).drop_first() =~= a.drop_first() + b);
        assert((a + b)[0] == a[0]);
        lemma_index_of_concat(a.drop_first(), b, c);
    } else {
        assert(a + b =~= b);
    }
}

proof fn lemma_index_of_absent(a: Seq<char>, c: char)
    requires
        lacks(a, c),
    ensures
        index_of(a, c) == a.len(),
{
    lemma_index_of_concat(a, seq![], c);
    assert(a + Seq::<char>::empty() =~= a);
}

/// The lines of joined lines are the lines, when no line holds a newline or
/// ends with a carriage return.
proof fn lemma_lines_of_join(ls: Seq<Seq<char>>)
    requires
        forall|i: int|
            0 <= i < ls.len() ==> lacks(#[trigger] ls[i], '\n') && (ls[i].len() == 0 || ls[i].last()
                != '\r'),
    ensures
        lines_spec(join_lines(ls)) == ls,
    decreases ls.len(),
{
    if ls.len() > 0 {
        let l = ls[0];
        let t = ls.drop_first();
        assert(seq![l] + t =~= ls);
        lemma_join_concat(seq![l], t);
        assert(seq![l].drop_last() =~= Seq::<Seq<char>>::empty());
        assert(join_lines(seq![l]) =~= l + seq!['\n']) by {
            reveal_with_fuel(join_lines, 2);
        }
        let j = join_lines(ls);
        assert(j =~= l + (seq!['\n'] + join_lines(t)));
        lemma_index_of_concat(l, seq!['\n'] + join_lines(t), '\n');
        assert(index_of(j, '\n') == l.len());
        assert(j.take(l.len() as int) =~= l);
        assert(j.skip(l.len() as int + 1) =~= join_lines(t));
        assert forall|i: int|
            0 <= i < t.len() implies lacks(#[trigger] t[i], '\n') && (t[i].len() == 0 || t[i].last()
            != '\r') by {
            assert(t[i] == ls[i + 1]);
        }
        lemma_lines_of_join(t);
        assert(line_text(l) == l);
    } else {
        assert(join_lines(ls) =~= Seq::<char>::empty());
    }
}

// ---------------------------------------------------------------------------
// Escapes
// ---------------------------------------------------------------------------

proof fn lemma_escape_str_cons(c: char, t: Seq<char>)
    ensures
        escape_str(seq![c] + t) == escape_str_char(c) + escape_str(t),
    decreases t.len(),
{
    if t.len() == 0 {
        assert(seq![c] + t =~= seq![c]);
        assert(seq![c].drop_last() =~= Seq::<char>::empty());
        assert(escape_str(seq![c]) =~= escape_str_char(c)) by {
            reveal_with_fuel(escape_str, 2);
        }
        assert(escape_str(t) =~= Seq::<char>::empty());
        assert(escape_str_char(c) + escape_str(t) =~= escape_str_char(c));
    } else {
        let u = seq![c] + t;
        assert(u.drop_last() =~= seq![c] + t.drop_last());
        assert(u.last() == t.last());
        lemma_escape_str_cons(c, t.drop_last());
        assert(escape_str(u) =~= escape_str_char(c) + escape_str(t));
    }
}

/// The escaped spelling of one character of a name.
pub open spec fn escape_name_char(c: char) -> Seq<char> {
    if c == '"' {
        seq!['\\', '"']
    } else {
        seq![c]
    }
}

proof fn lemma_escape_name_cons(c: char, t: Seq<char>)
    ensures
        escape_name(seq![c] + t) == escape_name_char(c) + escape_name(t),
    decreases t.len(),
{
    if t.len() == 0 {
        assert(seq![c] + t =~= seq![c]);
        assert(seq![c].drop_last() =~= Seq::<char>::empty());
        assert(escape_name(seq![c]) =~= escape_name_char(c)) by {
            reveal_with_fuel(escape_name, 2);
        }
        assert(escape_name(t) =~= Seq::<char>::empty());
        assert(escape_name_char(c) + escape_name(t) =~= escape_name_char(c));
    } else {
        let u = seq![c] + t;
        assert(u.drop_last() =~= seq![c] + t.drop_last());
        assert(u.last() == t.last());
        lemma_escape_name_cons(c, t.drop_last());
        assert(escape_name(u) =~= escape_name_char(c) + escape_name(t));
    }
}

/// Replacing a pattern whose first character does not occur changes
/// nothing.
proof fn lemma_replace_absent(s: Seq<char>, pat: Seq<char>, rep: Seq<char>)
    requires
        pat.len() > 0,
        lacks(s, pat[0]),
    ensures
        replace_spec(s, pat, rep) == s,
    decreases s.len(),
{
    if s.len() > 0 {
        assert(!pat.is_prefix_of(s)) by {
            if pat.is_prefix_of(s) {
                assert(s[0] == pat[0]);
            }
        }
        lemma_replace_absent(s.drop_first(), pat, rep);
        assert(seq![s[0]] + s.drop_first() =~= s);
    }
}

/// No backslash of `s` is directly followed by the letter `n`.
pub open spec fn no_backslash_n(s: Seq<char>) -> bool {
    forall|i: int| 0 <= i < s.len() - 1 ==> !(#[trigger] s[i] == '\\' && s[i + 1] == 'n')
}

/// A string with `\` and `"` escaped, newlines kept.
pub open spec fn escape_keep_newlines(s: Seq<char>) -> Seq<char>
    decreases s.len(),
{
    if s.len() == 0 {
        seq![]
    } else {
        (if s[0] == '\\' || s[0] == '"' {
            seq!['\\', s[0]]
        } else {
            seq![s[0]]
        }) + escape_keep_newlines(s.drop_first())
    }
}

/// A string with `\` escaped.
pub open spec fn escape_backslashes(s: Seq<char>) -> Seq<char>
    decreases s.len(),
{
    if s.len() == 0 {
        seq![]
    } else {
        (if s[0] == '\\' {
            seq!['\\', '\\']
        } else {
            seq![s[0]]
        }) + escape_backslashes(s.drop_first())
    }
}

proof fn lemma_unescape_newlines(s: Seq<char>)
    requires
        no_backslash_n(s),
    ensures
        replace_spec(escape_str(s), seq!['\\', 'n'], seq!['\n']) == escape_keep_newlines(s),
    decreases s.len(),
{
    let pat = seq!['\\', 'n'];
    let rep = seq!['\n'];
    if s.len() == 0 {
        assert(escape_str(s) =~= Seq::<char>::empty());
    } else {
        let c = s[0];
        let t = s.drop_first();
        assert(seq![c] + t =~= s);
        lemma_escape_str_cons(c, t);
        assert(no_backslash_n(t)) by {
            assert forall|i: int| 0 <= i < t.len() - 1 implies !(#[trigger] t[i] == '\\' && t[i + 1] == 'n') by {
                assert(t[i] == s[i + 1] && t[i + 1] == s[i + 2]);
            }
        }
        lemma_unescape_newlines(t);
        let e = escape_str(t);
        let k = escape_keep_newlines(t);
        if c == '"' {
            let u = seq!['\\', '"'] + e;
            assert(!pat.is_prefix_of(u)) by {
                assert(u[1] == '"');
            }
            assert(u.drop_first() =~= seq!['"'] + e);
            let w = seq!['"'] + e;
            assert(!pat.is_prefix_of(w)) by {
                assert(w[0] == '"');
            }
            assert(w.drop_first() =~= e);
            assert(replace_spec(w, pat, rep) == seq![w[0]] + replace_spec(e, pat, rep));
            assert(replace_spec(u, pat, rep) == seq![u[0]] + replace_spec(w, pat, rep));
            assert(escape_keep_newlines(s) =~= seq!['\\', '"'] + k);
            assert(replace_spec(u, pat, rep) =~= seq!['\\', '"'] + replace_spec(e, pat, rep));
        } else if c == '\\' {
            let u = seq!['\\', '\\'] + e;
            assert(!pat.is_prefix_of(u)) by {
                assert(u[1] == '\\');
            }
            assert(u.drop_first() =~= seq!['\\'] + e);
            let w = seq!['\\'] + e;
            assert(!pat.is_prefix_of(w)) by {
                if t.len() > 0 {
                    lemma_escape_str_cons(t[0], t.drop_first());
                    assert(seq![t[0]] + t.drop_first() =~= t);
                    assert(t[0] != 'n') by {
                        assert(s[0] == '\\' && s[1] == t[0]);
                    }
                    assert(e[0] == escape_str_char(t[0])[0]);
                    assert(w[1] == e[0]);
                } else {
                    assert(e =~= Seq::<char>::empty());
                    assert(w.len() == 1);
                }
            }
            assert(w.drop_first() =~= e);
            assert(replace_spec(w, pat, rep) == seq![w[0]] + replace_spec(e, pat, rep));
            assert(replace_spec(u, pat, rep) == seq![u[0]] + replace_spec(w, pat, rep));
            assert(escape_keep_newlines(s) =~= seq!['\\', '\\'] + k);
            assert(replace_spec(u, pat, rep) =~= seq!['\\', '\\'] + replace_spec(e, pat, rep));
        } else if c == '\n' {
            let u = seq!['\\', 'n'] + e;
            assert(pat.is_prefix_of(u)) by {
                assert(u.take(2) =~= pat);
            }
            assert(u.skip(2) =~= e);
            assert(escape_keep_newlines(s) =~= seq!['\n'] + k);
        } else {
            let u = seq![c] + e;
            assert(!pat.is_prefix_of(u)) by {
                assert(u[0] == c);
            }
            assert(u.drop_first() =~= e);
            assert(escape_keep_newlines(s) =~= seq![c] + k);
        }
    }
}

proof fn lemma_unescape_quotes(s: Seq<char>)
    ensures
        replace_spec(escape_keep_newlines(s), seq!['\\', '"'], seq!['"']) == escape_backslashes(s),
    decreases s.len(),
{
    let pat = seq!['\\', '"'];
    let rep = seq!['"'];
    if s.len() > 0 {
        let c = s[0];
        let t = s.drop_first();
        lemma_unescape_quotes(t);
        let e = escape_keep_newlines(t);
        if c == '"' {
            let u = seq!['\\', '"'] + e;
            assert(escape_keep_newlines(s) =~= u);
            assert(pat.is_prefix_of(u)) by {
                assert(u.take(2) =~= pat);
            }
            assert(u.skip(2) =~= e);
        } else if c == '\\' {
            let u = seq!['\\', '\\'] + e;
            assert(escape_keep_newlines(s) =~= u);
            assert(!pat.is_prefix_of(u)) by {
                assert(u[1] == '\\');
            }
            let w = seq!['\\'] + e;
            assert(u.drop_first() =~= w);
            assert(!pat.is_prefix_of(w)) by {
                if t.len() > 0 {
                    assert(e[0] == t[0] || e[0] == '\\');
                    if t[0] == '"' || t[0] == '\\' {
                        assert(e[0] == '\\');
                    } else {
                        assert(e[0] == t[0]);
                    }
                } else {
                    assert(w.len() == 1);
                }
            }
            assert(w.drop_first() =~= e);
            assert(replace_spec(w, pat, rep) == seq![w[0]] + replace_spec(e, pat, rep));
            assert(replace_spec(u, pat, rep) == seq![u[0]] + replace_spec(w, pat, rep));
            assert(escape_backslashes(s) =~= seq!['\\', '\\'] + escape_backslashes(t));
        } else {
            let u = seq![c] + e;
            assert(escape_keep_newlines(s) =~= u);
            assert(!pat.is_prefix_of(u)) by {
                assert(u[0] == c);
            }
            assert(u.drop_first() =~= e);
            assert(escape_backslashes(s) =~= seq![c] + escape_backslashes(t));
        }
    }
}

proof fn lemma_unescape_backslashes(s: Seq<char>)
    ensures
        replace_spec(escape_backslashes(s), seq!['\\', '\\'], seq!['\\']) == s,
    decreases s.len(),
{
    let pat = seq!['\\', '\\'];
    let rep = seq!['\\'];
    if s.len() > 0 {
        let c = s[0];
        let t = s.drop_first();
        lemma_unescape_backslashes(t);
        let e = escape_backslashes(t);
        if c == '\\' {
            let u = seq!['\\', '\\'] + e;
            assert(escape_backslashes(s) =~= u);
            assert(pat.is_prefix_of(u)) by {
                assert(u.take(2) =~= pat);
            }
            assert(u.skip(2) =~= e);
            assert(seq![c] + t =~= s);
        } else {
            let u = seq![c] + e;
            assert(escape_backslashes(s) =~= u);
            assert(!pat.is_prefix_of(u)) by {
                assert(u[0] == c);
            }
            assert(u.drop_first() =~= e);
            assert(seq![c] + t =~= s);
        }
    }
}

/// A string constant in which no backslash comes right before an `n`
/// reads back from its escaped form.
pub proof fn lemma_unescape_str(s: Seq<char>)
    requires
        no_backslash_n(s),
    ensures
        unescape_str(escape_str(s)) == s,
{
    lemma_unescape_newlines(s);
    lemma_unescape_quotes(s);
    lemma_unescape_backslashes(s);
}

proof fn lemma_unescape_name_quotes(s: Seq<char>)
    requires
        lacks(s, '\\'),
    ensures
        replace_spec(escape_name(s), seq!['\\', '"'], seq!['"']) == s,
    decreases s.len(),
{
    let pat = seq!['\\', '"'];
    let rep = seq!['"'];
    if s.len() == 0 {
        assert(escape_name(s) =~= Seq::<char>::empty());
    } else {
        let c = s[0];
        let t = s.drop_first();
        assert(seq![c] + t =~= s);
        lemma_escape_name_cons(c, t);
        assert(lacks(t, '\\')) by {
            assert forall|i: int| 0 <= i < t.len() implies #[trigger] t[i] != '\\' by {
                assert(t[i] == s[i + 1]);
            }
        }
        lemma_unescape_name_quotes(t);
        let e = escape_name(t);
        if c == '"' {
            let u = seq!['\\', '"'] + e;
            assert(pat.is_prefix_of(u)) by {
                assert(u.take(2) =~= pat);
            }
            assert(u.skip(2) =~= e);
        } else {
            let u = seq![c] + e;
            assert(!pat.is_prefix_of(u)) by {
                assert(u[0] == c);
            }
            assert(u.drop_first() =~= e);
        }
    }
}

/// A name without backslashes reads back from its escaped form.
pub proof fn lemma_unescape_name(s: Seq<char>)
    requires
        lacks(s, '\\'),
    ensures
        unescape_name(escape_name(s)) == s,
{
    lemma_unescape_name_quotes(s);
    lemma_replace_absent(s, seq!['\\', '\\'], seq!['\\']);
}

// ---------------------------------------------------------------------------
// Words, numbers and splitting
// ---------------------------------------------------------------------------

proof fn lemma_lacks_concat(a: Seq<char>, b: Seq<char>, c: char)
    requires
        lacks(a, c),
        lacks(b, c),
    ensures
        lacks(a + b, c),
{
    assert forall|i: int| 0 <= i < (a + b).len() implies #[trigger] (a + b)[i] != c by {
        if i < a.len() {
            assert((a + b)[i] == a[i]);
        } else {
            assert((a + b)[i] == b[i - a.len()]);
        }
    }
}

proof fn lemma_no_ws_concat(a: Seq<char>, b: Seq<char>)
    requires
        no_ws(a),
        no_ws(b),
    ensures
        no_ws(a + b),
{
    assert forall|i: int| 0 <= i < (a + b).len() implies !#[trigger] is_ws((a + b)[i]) by {
        if i < a.len() {
            assert((a + b)[i] == a[i]);
        } else {
            assert((a + b)[i] == b[i - a.len()]);
        }
    }
}

/// Facts about the decimal spelling of an integer: a non-empty word of
/// digits, maybe after a minus sign.
proof fn lemma_dec_facts(v: int)
    ensures
        dec_int(v).len() > 0,
        no_ws(dec_int(v)),
        lacks(dec_int(v), ':'),
        lacks(dec_int(v), '"'),
        lacks(dec_int(v), '\n'),
        lacks(dec_int(v), '='),
        lacks(dec_int(v), ' '),
        is_digit(dec_int(v).last()),
        is_digit(dec_int(v)[0]) || dec_int(v)[0] == '-',
{
    let n: nat = if v < 0 {
        (-v) as nat
    } else {
        v as nat
    };
    lemma_dec_nat_digits(n);
    let d = dec_nat(n);
    let s = dec_int(v);
    if v < 0 {
        assert(s =~= seq!['-'] + d);
        assert forall|i: int| 0 <= i < s.len() implies is_digit(s[i]) || s[i] == '-' by {
            if i > 0 {
                assert(s[i] == d[i - 1]);
            }
        }
        assert(s.last() == d.last());
        assert(is_digit(d[d.len() - 1]));
    } else {
        assert(s == d);
        assert forall|i: int| 0 <= i < s.len() implies is_digit(s[i]) || s[i] == '-' by {
            assert(is_digit(d[i]));
        }
        assert(is_digit(d[d.len() - 1]));
        assert(is_digit(d[0]));
    }
    assert forall|i: int| 0 <= i < s.len() implies !#[trigger] is_ws(s[i]) by {
        assert(is_digit(s[i]) || s[i] == '-');
    }
    assert forall|i: int| 0 <= i < s.len() implies #[trigger] s[i] != ':' by {
        assert(is_digit(s[i]) || s[i] == '-');
    }
    assert forall|i: int| 0 <= i < s.len() implies #[trigger] s[i] != '"' by {
        assert(is_digit(s[i]) || s[i] == '-');
    }
    assert forall|i: int| 0 <= i < s.len() implies #[trigger] s[i] != '\n' by {
        assert(is_digit(s[i]) || s[i] == '-');
    }
    assert forall|i: int| 0 <= i < s.len() implies #[trigger] s[i] != '=' by {
        assert(is_digit(s[i]) || s[i] == '-');
    }
    assert forall|i: int| 0 <= i < s.len() implies #[trigger] s[i] != ' ' by {
        assert(is_digit(s[i]) || s[i] == '-');
    }
}

/// Spelling an `i32` in decimal and parsing it back gives it back.
proof fn lemma_i32_text(v: i32)
    ensures
        p_i32(dec_int(v as int)) == Some(v),
{
    lemma_i64_text_roundtrip(v as i64);
}

proof fn lemma_i64_text(v: i64)
    ensures
        p_i64(dec_int(v as int)) == Some(v),
{
    lemma_i64_text_roundtrip(v);
}

proof fn lemma_u16_text(v: u16)
    ensures
        p_u16(dec_int(v as int)) == Some(v),
{
    lemma_i64_text_roundtrip(v as i64);
}

proof fn lemma_split_word(w: Seq<char>, rest: Seq<char>, cur: Seq<char>)
    requires
        no_ws(w),
    ensures
        split_ws_acc(w + rest, cur) == split_ws_acc(rest, cur + w),
    decreases w.len(),
{
    if w.len() == 0 {
        assert(w + rest =~= rest);
        assert(cur + w =~= cur);
    } else {
        assert((w + rest)[0] == w[0]);
        assert(!is_ws(w[0]));
        assert((w + rest).drop_first() =~= w.drop_first() + rest);
        assert(no_ws(w.drop_first())) by {
            assert forall|i: int| 0 <= i < w.drop_first().len() implies !#[trigger] is_ws(
                w.drop_first()[i],
            ) by {
                assert(w.drop_first()[i] == w[i + 1]);
            }
        }
        lemma_split_word(w.drop_first(), rest, cur.push(w[0]));
        assert(cur.push(w[0]) + w.drop_first() =~= cur + w);
    }
}

/// `split_whitespace` of two words separated by a space.
proof fn lemma_split_two(a: Seq<char>, b: Seq<char>)
    requires
        a.len() > 0,
        b.len() > 0,
        no_ws(a),
        no_ws(b),
    ensures
        split_ws(a + seq![' '] + b) == seq![a, b],
{
    let rest = seq![' '] + b;
    assert(a + seq![' '] + b =~= a + rest);
    lemma_split_word(a, rest, seq![]);
    assert(Seq::<char>::empty() + a =~= a);
    assert(rest.drop_first() =~= b);
    assert(is_ws(rest[0]));
    assert(split_ws_acc(rest, a) == seq![a] + split_ws_acc(b, seq![]));
    assert(b =~= b + Seq::<char>::empty());
    lemma_split_word(b, seq![], seq![]);
    assert(Seq::<char>::empty() + b =~= b);
    assert(split_ws_acc(seq![], b) == seq![b]);
    assert(seq![a] + seq![b] =~= seq![a, b]);
}

/// `split_whitespace` of three words separated by spaces.
proof fn lemma_split_three(a: Seq<char>, b: Seq<char>, c: Seq<char>)
    requires
        a.len() > 0,
        b.len() > 0,
        c.len() > 0,
        no_ws(a),
        no_ws(b),
        no_ws(c),
    ensures
        split_ws(a + seq![' '] + b + seq![' '] + c) == seq![a, b, c],
{
    let rest = seq![' '] + (b + seq![' '] + c);
    assert(a + seq![' '] + b + seq![' '] + c =~= a + rest);
    lemma_split_word(a, rest, seq![]);
    assert(Seq::<char>::empty() + a =~= a);
    assert(rest.drop_first() =~= b + seq![' '] + c);
    assert(is_ws(rest[0]));
    assert(split_ws_acc(rest, a) == seq![a] + split_ws_acc(b + seq![' '] + c, seq![]));
    lemma_split_two(b, c);
    assert(seq![a] + seq![b, c] =~= seq![a, b, c]);
}

/// A command word that is not `kw` does not start `kw` and a space.
proof fn lemma_not_keyword(cmd: Seq<char>, o: Seq<char>, kw: Seq<char>)
    requires
        lacks(cmd, ' '),
        lacks(kw, ' '),
        cmd != kw,
    ensures
        !(kw + seq![' ']).is_prefix_of(cmd + seq![' '] + o),
{
    let x = cmd + seq![' '] + o;
    let p = kw + seq![' '];
    if p.is_prefix_of(x) {
        let n = kw.len();
        assert(p[n as int] == ' ');
        assert(x[n as int] == ' ');
        if cmd.len() > n {
            assert(x[n as int] == cmd[n as int]);
        } else if cmd.len() < n {
            assert(x[cmd.len() as int] == ' ');
            assert(p[cmd.len() as int] == kw[cmd.len() as int]);
        } else {
            assert(cmd =~= kw) by {
                assert forall|i: int| 0 <= i < n implies cmd[i] == kw[i] by {
                    assert(x[i] == cmd[i]);
                    assert(p[i] == kw[i]);
                }
            }
        }
    }
}

// ---------------------------------------------------------------------------
// Operands
// ---------------------------------------------------------------------------

/// Facts about a domain label: a non-empty word of letters and `_`.
proof fn lemma_label_facts(d: VarDomain)
    ensures
        domain_label(d).len() > 0,
        no_ws(domain_label(d)),
        lacks(domain_label(d), ':'),
        lacks(domain_label(d), '\n'),
        !is_digit(domain_label(d)[0]),
        domain_label(d)[0] != '+',
        domain_label(d)[0] != '-',
{
    reveal_strlit("player");
    reveal_strlit("npc");
    reveal_strlit("client");
    reveal_strlit("world");
    reveal_strlit("region");
    reveal_strlit("object");
    reveal_strlit("clan");
    reveal_strlit("clan_setting");
    reveal_strlit("controller");
    reveal_strlit("player_group");
    reveal_strlit("global");
    let l = domain_label(d);
    assert forall|i: int| 0 <= i < l.len() implies ('a' <= #[trigger] l[i] <= 'z' || l[i] == '_') by {
        match d {
            VarDomain::Player => {},
            VarDomain::Npc => {},
            VarDomain::Client => {},
            VarDomain::World => {},
            VarDomain::Region => {},
            VarDomain::Object => {},
            VarDomain::Clan => {},
            VarDomain::ClanSetting => {},
            VarDomain::Controller => {},
            VarDomain::PlayerGroup => {},
            VarDomain::Global => {},
        }
    }
    assert('a' <= l[0] <= 'z');
}

proof fn lemma_find_sub_at(w: Seq<char>, p: Seq<char>)
    requires
        p.len() > 0,
        lacks(w, p[0]),
    ensures
        find_sub(w + p, p) == w.len(),
        p.is_prefix_of((w + p).skip(w.len() as int)),
    decreases w.len(),
{
    if w.len() > 0 {
        assert(!p.is_prefix_of(w + p)) by {
            assert((w + p)[0] == w[0]);
        }
        assert((w + p).drop_first() =~= w.drop_first() + p);
        assert(lacks(w.drop_first(), p[0])) by {
            assert forall|i: int| 0 <= i < w.drop_first().len() implies #[trigger] w.drop_first()[i]
                != p[0] by {
                assert(w.drop_first()[i] == w[i + 1]);
            }
        }
        lemma_find_sub_at(w.drop_first(), p);
    } else {
        assert(w + p =~= p);
        assert(p.is_prefix_of(p));
    }
    assert((w + p).skip(w.len() as int) =~= p);
}

proof fn lemma_find_sub_absent(w: Seq<char>, p: Seq<char>)
    requires
        p.len() > 0,
        lacks(w, p[0]),
    ensures
        !p.is_prefix_of(w.skip(find_sub(w, p))),
    decreases w.len(),
{
    if w.len() > 0 {
        assert(!p.is_prefix_of(w)) by {
            assert(w[0] != p[0]);
        }
        assert(lacks(w.drop_first(), p[0])) by {
            assert forall|i: int| 0 <= i < w.drop_first().len() implies #[trigger] w.drop_first()[i]
                != p[0] by {
                assert(w.drop_first()[i] == w[i + 1]);
            }
        }
        lemma_find_sub_absent(w.drop_first(), p);
        lemma_find_sub_bound(w.drop_first(), p);
        assert(w.skip(find_sub(w, p)) =~= w.drop_first().skip(find_sub(w.drop_first(), p)));
    } else {
        assert(!p.is_prefix_of(w));
    }
}

/// Whether an operand of class `kind` can be spelled in the assembly form
/// and read back as itself.
pub open spec fn spellable_operand(kind: OperandKind, op: OperandV) -> bool {
    match kind {
        OperandKind::ConstInt => op is Int,
        OperandKind::ConstLong => op is Long,
        OperandKind::ConstString => match op {
            OperandV::Int(_) => true,
            OperandV::Long(_) => true,
            OperandV::Str(s) => no_backslash_n(s),
            _ => false,
        },
        OperandKind::Local => op is Local,
        OperandKind::Var => op is VarRef,
        OperandKind::VarBit => op is VarBitRef,
        OperandKind::FixedVar(d) => match op {
            OperandV::VarRef(r) => r.domain == d && !r.transmog,
            _ => false,
        },
        OperandKind::FixedVarBit => match op {
            OperandV::VarBitRef(r) => !r.transmog,
            _ => false,
        },
        OperandKind::Branch => op is Branch,
        OperandKind::Switch => op is Switch,
        OperandKind::Count => op is Count,
        OperandKind::Script => op is Script,
        OperandKind::Array => op is Array,
        OperandKind::Other => op is Byte || op is Int,
    }
}

/// A command word the assembly form can hold: non-empty, without
/// whitespace, and not one of the header keywords.
pub open spec fn spellable_command(c: Seq<char>) -> bool {
    &&& c.len() > 0
    &&& no_ws(c)
    &&& c != "name"@
    &&& c != "locals"@
    &&& c != "args"@
    &&& c != "case"@
}

/// Whether an instruction can be spelled and read back: a switch is the
/// command `switch` with a case list.
pub open spec fn spellable_instruction(ins: InstructionV) -> bool {
    &&& spellable_command(ins.command)
    &&& spellable_operand(operand_kind(ins.command), ins.operand)
    &&& (ins.command == "switch"@ <==> ins.operand is Switch)
}

/// The operand part of an instruction's line: what follows the command and
/// a space.
pub open spec fn operand_text(ins: InstructionV) -> Seq<char> {
    if ins.command == "push_constant_string"@ {
        match ins.operand {
            OperandV::Int(v) => "int:"@ + dec_int(v as int),
            OperandV::Long(v) => "long:"@ + dec_int(v as int),
            OperandV::Str(s) => "str:"@ + seq!['"'] + escape_str(s) + seq!['"'],
            o => fmt_operand(o),
        }
    } else if operand_kind(ins.command) == OperandKind::Other && ins.operand is Int {
        "raw32:"@ + dec_int(ins.operand->Int_0 as int)
    } else {
        fmt_operand(ins.operand)
    }
}

proof fn lemma_escape_str_lacks_newline(s: Seq<char>)
    ensures
        lacks(escape_str(s), '\n'),
    decreases s.len(),
{
    if s.len() > 0 {
        lemma_escape_str_lacks_newline(s.drop_last());
        let c = s.last();
        assert(lacks(escape_str_char(c), '\n'));
        lemma_lacks_concat(escape_str(s.drop_last()), escape_str_char(c), '\n');
    }
}

proof fn lemma_escape_name_lacks_newline(s: Seq<char>)
    requires
        lacks(s, '\n'),
    ensures
        lacks(escape_name(s), '\n'),
    decreases s.len(),
{
    if s.len() > 0 {
        assert(lacks(s.drop_last(), '\n')) by {
            assert forall|i: int| 0 <= i < s.drop_last().len() implies #[trigger] s.drop_last()[i]
                != '\n' by {
                assert(s.drop_last()[i] == s[i]);
            }
        }
        lemma_escape_name_lacks_newline(s.drop_last());
        let c = s.last();
        assert(c == s[s.len() - 1]);
        let e: Seq<char> = if c == '"' {
            seq!['\\', '"']
        } else {
            seq![c]
        };
        assert(lacks(e, '\n'));
        lemma_lacks_concat(escape_name(s.drop_last()), e, '\n');
    }
}

/// A text that can follow a command on its line: non-empty, without a
/// newline, and neither starting nor ending with whitespace.
pub open spec fn line_part(t: Seq<char>) -> bool {
    &&& t.len() > 0
    &&& !is_ws(t[0])
    &&& !is_ws(t.last())
    &&& lacks(t, '\n')
}

proof fn lemma_line_part_concat(a: Seq<char>, b: Seq<char>)
    requires
        a.len() > 0,
        !is_ws(a[0]),
        lacks(a, '\n'),
        line_part(b),
    ensures
        line_part(a + b),
{
    lemma_lacks_concat(a, b, '\n');
    assert((a + b)[0] == a[0]);
    assert((a + b).last() == b.last());
}

proof fn lemma_dec_line_part(v: int)
    ensures
        line_part(dec_int(v)),
{
    lemma_dec_facts(v);
}

proof fn lemma_fmt_operand_props(op: OperandV)
    requires
        !(op is Switch),
    ensures
        line_part(fmt_operand(op)),
{
    reveal_strlit(":transmog");
    match op {
        OperandV::Str(s) => {
            lemma_escape_str_lacks_newline(s);
            let t = seq!['"'] + escape_str(s) + seq!['"'];
            lemma_lacks_concat(seq!['"'], escape_str(s), '\n');
            lemma_lacks_concat(seq!['"'] + escape_str(s), seq!['"'], '\n');
            assert(t[0] == '"');
            assert(t.last() == '"');
        },
        OperandV::VarRef(r) => {
            lemma_label_facts(r.domain);
            lemma_dec_facts(r.id as int);
            let l = domain_label(r.domain);
            let tail = dec_int(r.id as int) + transmog_suffix(r.transmog);
            assert(line_part(tail)) by {
                if r.transmog {
                    lemma_lacks_concat(dec_int(r.id as int), ":transmog"@, '\n');
                    assert(tail.last() == 'g');
                } else {
                    assert(tail =~= dec_int(r.id as int));
                }
            }
            lemma_line_part_concat(seq![':'], tail);
            assert(seq![':'] + tail =~= seq![':'] + dec_int(r.id as int) + transmog_suffix(
                r.transmog,
            ));
            lemma_line_part_concat(l, seq![':'] + tail);
            assert(fmt_operand(op) =~= l + (seq![':'] + tail));
        },
        OperandV::VarBitRef(r) => {
            lemma_dec_facts(r.id as int);
            if r.transmog {
                lemma_lacks_concat(dec_int(r.id as int), ":transmog"@, '\n');
                assert(fmt_operand(op).last() == 'g');
            } else {
                assert(fmt_operand(op) =~= dec_int(r.id as int));
            }
        },
        OperandV::Int(v) => lemma_dec_facts(v as int),
        OperandV::Long(v) => lemma_dec_facts(v as int),
        OperandV::Local(v) => lemma_dec_facts(v as int),
        OperandV::Branch(v) => lemma_dec_facts(v as int),
        OperandV::Script(v) => lemma_dec_facts(v as int),
        OperandV::Array(v) => lemma_dec_facts(v as int),
        OperandV::Count(v) => lemma_dec_facts(v as int),
        OperandV::Byte(v) => lemma_dec_facts(v as int),
        OperandV::Switch(_) => {},
    }
}

/// The line body of a spellable instruction other than a switch is its
/// command, a space and its operand text.
proof fn lemma_instruction_text(ins: InstructionV)
    requires
        spellable_instruction(ins),
        ins.command != "switch"@,
    ensures
        fmt_instruction(ins) == ins.command + seq![' '] + operand_text(ins),
        line_part(operand_text(ins)),
{
    reveal_strlit("push_constant_string");
    reveal_strlit("push_constant_string int:");
    reveal_strlit("push_constant_string long:");
    reveal_strlit("push_constant_string str:");
    reveal_strlit("push_constant_string ");
    reveal_strlit("int:");
    reveal_strlit("long:");
    reveal_strlit("str:");
    reveal_strlit("raw32:");
    reveal_strlit(" raw32:");
    assert(!(ins.operand is Switch)) by {
        if ins.operand is Switch {
            assert(operand_kind(ins.command) == OperandKind::Switch);
        }
    }
    lemma_fmt_operand_props(ins.operand);
    if ins.command == "push_constant_string"@ {
        match ins.operand {
            OperandV::Int(v) => {
                lemma_dec_facts(v as int);
                lemma_line_part_concat("int:"@, dec_int(v as int));
                assert(fmt_instruction(ins) =~= ins.command + seq![' '] + operand_text(ins));
            },
            OperandV::Long(v) => {
                lemma_dec_facts(v as int);
                lemma_line_part_concat("long:"@, dec_int(v as int));
                assert(fmt_instruction(ins) =~= ins.command + seq![' '] + operand_text(ins));
            },
            OperandV::Str(s) => {
                let q = seq!['"'] + escape_str(s) + seq!['"'];
                assert(fmt_operand(ins.operand) == q);
                lemma_line_part_concat("str:"@, q);
                assert("str:"@ + seq!['"'] + escape_str(s) + seq!['"'] =~= "str:"@ + q);
                assert(fmt_instruction(ins) =~= ins.command + seq![' '] + operand_text(ins));
            },
            _ => {
                assert(fmt_instruction(ins) =~= ins.command + seq![' '] + operand_text(ins));
            },
        }
    } else if operand_kind(ins.command) == OperandKind::Other && ins.operand is Int {
        let v = ins.operand->Int_0;
        lemma_dec_facts(v as int);
        lemma_line_part_concat("raw32:"@, dec_int(v as int));
        assert(fmt_instruction(ins) =~= ins.command + seq![' '] + operand_text(ins));
    } else {
        assert(fmt_operand(ins.operand).len() > 0);
    }
}

/// A number spelled with a leading letter is no number.
proof fn lemma_not_number(t: Seq<char>)
    requires
        t.len() > 0,
        !is_digit(t[0]),
        t[0] != '+',
        t[0] != '-',
    ensures
        p_u16(t) is None,
{
    assert(!all_digits(t)) by {
        assert(!is_digit(t[0]));
    }
}

proof fn lemma_reads_constant_string(op: OperandV)
    requires
        spellable_operand(OperandKind::ConstString, op),
    ensures
        parse_constant_string_spec(
            match op {
                OperandV::Int(v) => "int:"@ + dec_int(v as int),
                OperandV::Long(v) => "long:"@ + dec_int(v as int),
                OperandV::Str(s) => "str:"@ + seq!['"'] + escape_str(s) + seq!['"'],
                o => fmt_operand(o),
            },
        ) == Some(op),
{
    reveal_strlit("int:");
    reveal_strlit("long:");
    reveal_strlit("str:");
    reveal_strlit("int");
    reveal_strlit("long");
    reveal_strlit("str");
    match op {
        OperandV::Int(v) => {
            let t = "int:"@ + dec_int(v as int);
            lemma_index_of_concat("int"@, seq![':'] + dec_int(v as int), ':');
            assert(t =~= "int"@ + (seq![':'] + dec_int(v as int)));
            assert(t.take(3) =~= "int"@);
            assert(t.skip(4) =~= dec_int(v as int));
            lemma_i32_text(v);
        },
        OperandV::Long(v) => {
            let t = "long:"@ + dec_int(v as int);
            lemma_index_of_concat("long"@, seq![':'] + dec_int(v as int), ':');
            assert(t =~= "long"@ + (seq![':'] + dec_int(v as int)));
            assert(t.take(4) =~= "long"@);
            assert(t.skip(5) =~= dec_int(v as int));
            lemma_i64_text(v);
        },
        OperandV::Str(s) => {
            let t = "str:"@ + seq!['"'] + escape_str(s) + seq!['"'];
            let q = seq!['"'] + escape_str(s) + seq!['"'];
            lemma_index_of_concat("str"@, seq![':'] + q, ':');
            assert(t =~= "str"@ + (seq![':'] + q));
            assert(t.take(3) =~= "str"@);
            assert(t.skip(4) =~= q);
            assert(unquote(q) =~= escape_str(s));
            lemma_unescape_str(s);
        },
        _ => {},
    }
}

proof fn lemma_reads_var(r: VarRef)
    ensures
        parse_var_spec(fmt_operand(OperandV::VarRef(r))) == Some(OperandV::VarRef(r)),
{
    reveal_strlit(":transmog");
    lemma_label_facts(r.domain);
    lemma_dec_facts(r.id as int);
    lemma_domain_label_roundtrip(r.domain);
    let t = fmt_operand(OperandV::VarRef(r));
    let l = domain_label(r.domain);
    let d = dec_int(r.id as int);
    let rest = d + transmog_suffix(r.transmog);
    lemma_index_of_concat(l, seq![':'] + rest, ':');
    assert(t =~= l + (seq![':'] + rest));
    assert(t.take(l.len() as int) =~= l);
    assert(t.skip(l.len() as int + 1) =~= rest);
    if r.transmog {
        lemma_find_sub_at(d, ":transmog"@);
        assert(rest.take(d.len() as int) =~= d);
    } else {
        assert(rest =~= d);
        lemma_find_sub_absent(d, ":transmog"@);
    }
    lemma_u16_text(r.id);
}

proof fn lemma_reads_varbit(r: VarBitRef)
    ensures
        parse_varbit_spec(fmt_operand(OperandV::VarBitRef(r))) == Some(OperandV::VarBitRef(r)),
{
    reveal_strlit(":transmog");
    lemma_dec_facts(r.id as int);
    let t = fmt_operand(OperandV::VarBitRef(r));
    let d = dec_int(r.id as int);
    if r.transmog {
        lemma_find_sub_at(d, ":transmog"@);
        assert(t.take(d.len() as int) =~= d);
    } else {
        assert(t =~= d);
        lemma_find_sub_absent(d, ":transmog"@);
    }
    lemma_u16_text(r.id);
}

proof fn lemma_reads_fixed_var(dom: VarDomain, r: VarRef)
    requires
        r.domain == dom,
        !r.transmog,
    ensures
        parse_fixed_var_spec(dom, fmt_operand(OperandV::VarRef(r))) == Some(OperandV::VarRef(r)),
{
    lemma_label_facts(r.domain);
    lemma_dec_facts(r.id as int);
    lemma_domain_label_roundtrip(r.domain);
    let t = fmt_operand(OperandV::VarRef(r));
    let l = domain_label(r.domain);
    let d = dec_int(r.id as int);
    assert(t =~= l + (seq![':'] + d));
    assert(t[0] == l[0]);
    lemma_not_number(t);
    lemma_index_of_concat(l, seq![':'] + d, ':');
    assert(t.take(l.len() as int) =~= l);
    assert(t.skip(l.len() as int + 1) =~= d);
    lemma_u16_text(r.id);
}

proof fn lemma_reads_fixed_varbit(r: VarBitRef)
    requires
        !r.transmog,
    ensures
        parse_fixed_varbit_spec(fmt_operand(OperandV::VarBitRef(r))) == Some(
            OperandV::VarBitRef(r),
        ),
{
    reveal_strlit("varbit:");
    let t = fmt_operand(OperandV::VarBitRef(r));
    let d = dec_int(r.id as int);
    lemma_dec_nat_digits(r.id as nat);
    assert(t =~= d);
    assert(d == dec_nat(r.id as nat));
    assert(is_digit(d[0]));
    assert(!"varbit:"@.is_prefix_of(t)) by {
        if "varbit:"@.is_prefix_of(t) {
            assert(t[0] == "varbit:"@[0]);
        }
    }
    lemma_u16_text(r.id);
}

proof fn lemma_reads_other(op: OperandV, t: Seq<char>)
    requires
        op is Byte || op is Int,
        t == (if op is Int {
            "raw32:"@ + dec_int(op->Int_0 as int)
        } else {
            fmt_operand(op)
        }),
    ensures
        parse_operand_spec_other(t) == Some(op),
{
    reveal_strlit("raw32:");
    match op {
        OperandV::Int(v) => {
            assert(t.skip(6) =~= dec_int(v as int));
            assert("raw32:"@.is_prefix_of(t)) by {
                assert(t.take(6) =~= "raw32:"@);
            }
            lemma_i32_text(v);
        },
        OperandV::Byte(b) => {
            lemma_dec_nat_digits(b as nat);
            let d = dec_int(b as int);
            assert(d == dec_nat(b as nat));
            assert(is_digit(d[0]));
            assert(!"raw32:"@.is_prefix_of(t)) by {
                if "raw32:"@.is_prefix_of(t) {
                    assert(t[0] == "raw32:"@[0]);
                }
            }
            lemma_i32_text(b as i32);
        },
        _ => {},
    }
}

/// Reading the operand text of a spellable instruction gives its operand.
proof fn lemma_operand_reads_back(ins: InstructionV)
    requires
        spellable_instruction(ins),
        ins.command != "switch"@,
    ensures
        parse_operand_spec(ins.command, operand_text(ins)) == Some(ins.operand),
{
    lemma_instruction_text(ins);
    reveal_strlit("push_constant_string");
    let k = operand_kind(ins.command);
    match k {
        OperandKind::ConstString => {
            lemma_reads_constant_string(ins.operand);
            assert(parse_operand_spec(ins.command, operand_text(ins)) == Some(ins.operand));
        },
        OperandKind::Var => {
            lemma_reads_var(ins.operand->VarRef_0);
            assert(parse_operand_spec(ins.command, operand_text(ins)) == Some(ins.operand));
        },
        OperandKind::VarBit => {
            lemma_reads_varbit(ins.operand->VarBitRef_0);
            assert(parse_operand_spec(ins.command, operand_text(ins)) == Some(ins.operand));
        },
        OperandKind::FixedVar(dom) => {
            lemma_reads_fixed_var(dom, ins.operand->VarRef_0);
            assert(parse_operand_spec(ins.command, operand_text(ins)) == Some(ins.operand));
        },
        OperandKind::FixedVarBit => {
            lemma_reads_fixed_varbit(ins.operand->VarBitRef_0);
            assert(parse_operand_spec(ins.command, operand_text(ins)) == Some(ins.operand));
        },
        OperandKind::Other => {
            lemma_reads_other(ins.operand, operand_text(ins));
            assert(parse_operand_spec(ins.command, operand_text(ins)) == Some(ins.operand));
        },
        OperandKind::ConstLong => {
            lemma_i64_text(ins.operand->Long_0);
            reveal_strlit("push_long_constant");
            assert(ins.command != "push_constant_string"@);
            assert(operand_text(ins) == dec_int(ins.operand->Long_0 as int));
            assert(operand_text(ins).len() > 0);
            assert(parse_operand_spec(ins.command, operand_text(ins)) == Some(ins.operand));
        },
        OperandKind::ConstInt => {
            lemma_i32_text(ins.operand->Int_0);
            reveal_strlit("push_constant_int");
            assert(ins.command != "push_constant_string"@);
            assert(operand_text(ins) == dec_int(ins.operand->Int_0 as int));
            assert(operand_text(ins).len() > 0);
            assert(parse_operand_spec(ins.command, operand_text(ins)) == Some(ins.operand));
        },
        OperandKind::Local => {
            lemma_i32_text(ins.operand->Local_0);
            assert(parse_operand_spec(ins.command, operand_text(ins)) == Some(ins.operand));
        },
        OperandKind::Branch => {
            lemma_i32_text(ins.operand->Branch_0);
            assert(parse_operand_spec(ins.command, operand_text(ins)) == Some(ins.operand));
        },
        OperandKind::Count => {
            lemma_i32_text(ins.operand->Count_0);
            assert(parse_operand_spec(ins.command, operand_text(ins)) == Some(ins.operand));
        },
        OperandKind::Script => {
            lemma_i32_text(ins.operand->Script_0);
            assert(parse_operand_spec(ins.command, operand_text(ins)) == Some(ins.operand));
        },
        OperandKind::Array => {
            lemma_i32_text(ins.operand->Array_0);
            assert(parse_operand_spec(ins.command, operand_text(ins)) == Some(ins.operand));
        },
        OperandKind::Switch => {},
    }
}

// ---------------------------------------------------------------------------
// Lines
// ---------------------------------------------------------------------------

/// An instruction with its opcode cleared, as the assembly form reads it.
pub open spec fn zero_opcode(i: InstructionV) -> InstructionV {
    InstructionV { opcode: 0, command: i.command, operand: i.operand }
}

/// Instructions with their opcodes cleared.
pub open spec fn zero_opcodes(c: Seq<InstructionV>) -> Seq<InstructionV> {
    c.map_values(|i: InstructionV| zero_opcode(i))
}

/// The pragma content of a line `// @cs2 ` + `x` is `x`, when `x` starts and
/// ends with a non-whitespace character.
proof fn lemma_content(x: Seq<char>)
    requires
        x.len() > 0,
        !is_ws(x[0]),
        !is_ws(x.last()),
    ensures
        pragma_content("// @cs2 "@ + x) == Some(x),
{
    reveal_strlit("// @cs2 ");
    let l = "// @cs2 "@ + x;
    assert(l[0] == '/');
    assert(l.last() == x.last());
    lemma_trim_id(l);
    assert(l.take(8) =~= "// @cs2 "@);
    assert(l.skip(8) =~= x);
    lemma_trim_id(x);
}

/// The words the parser treats as header keywords.
proof fn lemma_keywords()
    ensures
        "name "@ == "name"@ + seq![' '],
        "locals "@ == "locals"@ + seq![' '],
        "args "@ == "args"@ + seq![' '],
        "case "@ == "case"@ + seq![' '],
        lacks("name"@, ' '),
        lacks("locals"@, ' '),
        lacks("args"@, ' '),
        lacks("case"@, ' '),
        lacks("switch"@, ' '),
{
    reveal_strlit("name ");
    reveal_strlit("locals ");
    reveal_strlit("args ");
    reveal_strlit("case ");
    reveal_strlit("name");
    reveal_strlit("locals");
    reveal_strlit("args");
    reveal_strlit("case");
    reveal_strlit("switch");
    assert("name "@ =~= "name"@ + seq![' ']);
    assert("locals "@ =~= "locals"@ + seq![' ']);
    assert("args "@ =~= "args"@ + seq![' ']);
    assert("case "@ =~= "case"@ + seq![' ']);
}

proof fn lemma_no_ws_lacks_space(c: Seq<char>)
    requires
        no_ws(c),
    ensures
        lacks(c, ' '),
{
    assert forall|i: int| 0 <= i < c.len() implies #[trigger] c[i] != ' ' by {
        assert(!is_ws(c[i]));
    }
}

/// The body of a spellable instruction line is read as that instruction.
proof fn lemma_instruction_body(ins: InstructionV)
    requires
        spellable_instruction(ins),
        ins.command != "switch"@,
    ensures
        ({
            let x = fmt_instruction(ins);
            &&& x.len() > 0
            &&& !is_ws(x[0])
            &&& !is_ws(x.last())
            &&& lacks(x, '\n')
            &&& !"name "@.is_prefix_of(x)
            &&& !"locals "@.is_prefix_of(x)
            &&& !"args "@.is_prefix_of(x)
            &&& !"case "@.is_prefix_of(x)
            &&& x != "switch"@
            &&& split_instruction(x) == (ins.command, operand_text(ins))
        }),
{
    lemma_instruction_text(ins);
    lemma_operand_reads_back(ins);
    lemma_keywords();
    let cmd = ins.command;
    let ot = operand_text(ins);
    let x = fmt_instruction(ins);
    lemma_no_ws_lacks_space(cmd);
    lemma_not_keyword(cmd, ot, "name"@);
    lemma_not_keyword(cmd, ot, "locals"@);
    lemma_not_keyword(cmd, ot, "args"@);
    lemma_not_keyword(cmd, ot, "case"@);
    assert(x[0] == cmd[0]);
    assert(!is_ws(cmd[0]));
    assert(x.last() == ot.last());
    assert(lacks(cmd, '\n')) by {
        assert forall|i: int| 0 <= i < cmd.len() implies #[trigger] cmd[i] != '\n' by {
            assert(!is_ws(cmd[i]));
        }
    }
    lemma_lacks_concat(cmd, seq![' '], '\n');
    lemma_lacks_concat(cmd + seq![' '], ot, '\n');
    assert(x != "switch"@) by {
        if x == "switch"@ {
            assert(x[cmd.len() as int] == ' ');
        }
    }
    lemma_index_of_concat(cmd, seq![' '] + ot, ' ');
    assert(x =~= cmd + (seq![' '] + ot));
    assert(x.take(cmd.len() as int) =~= cmd);
    assert(x.skip(cmd.len() as int + 1) =~= ot);
    lemma_trim_id(ot);
}

/// One instruction line: a pending switch is flushed and the instruction
/// appended with a zero opcode.
proof fn lemma_step_instruction(st: PragmaState, ins: InstructionV)
    requires
        spellable_instruction(ins),
        ins.command != "switch"@,
    ensures
        pragma_step(st, "// @cs2 "@ + fmt_instruction(ins)) == Some(
            PragmaState { code: flush(st).code.push(zero_opcode(ins)), ..flush(st) },
        ),
        !line_slices_lone_quote("// @cs2 "@ + fmt_instruction(ins)),
{
    lemma_instruction_body(ins);
    lemma_operand_reads_back(ins);
    lemma_content(fmt_instruction(ins));
    reveal_strlit("push_constant_string");
    reveal_strlit("str");
    reveal_strlit("int:");
    reveal_strlit("long:");
    reveal_strlit("str:");
    let t = operand_text(ins);
    if ins.command == "push_constant_string"@ {
        match ins.operand {
            OperandV::Int(v) => {
                lemma_dec_facts(v as int);
                lemma_index_of_concat(seq!['i', 'n', 't'], seq![':'] + dec_int(v as int), ':');
                assert(t =~= seq!['i', 'n', 't'] + (seq![':'] + dec_int(v as int)));
                assert(t.take(3) != "str"@) by {
                    assert(t.take(3)[0] == 'i');
                }
            },
            OperandV::Long(v) => {
                lemma_dec_facts(v as int);
                lemma_index_of_concat(seq!['l', 'o', 'n', 'g'], seq![':'] + dec_int(v as int), ':');
                assert(t =~= seq!['l', 'o', 'n', 'g'] + (seq![':'] + dec_int(v as int)));
                assert(t.take(4).len() == 4);
                assert(t.take(4) != "str"@);
            },
            OperandV::Str(s) => {
                let q = seq!['"'] + escape_str(s) + seq!['"'];
                lemma_index_of_concat(seq!['s', 't', 'r'], seq![':'] + q, ':');
                assert(t =~= seq!['s', 't', 'r'] + (seq![':'] + q));
                assert(t.skip(4) =~= q);
                assert(q != seq!['"']) by {
                    assert(q.len() >= 2);
                }
            },
            _ => {},
        }
    }
}

/// The line opening a switch.
proof fn lemma_step_switch_head(st: PragmaState)
    ensures
        pragma_step(st, "// @cs2 switch"@) == Some(PragmaState { open: true, ..flush(st) }),
        !line_slices_lone_quote("// @cs2 switch"@),
{
    reveal_strlit("switch");
    reveal_strlit("// @cs2 switch");
    reveal_strlit("// @cs2 ");
    reveal_strlit("name ");
    reveal_strlit("locals ");
    reveal_strlit("args ");
    reveal_strlit("case ");
    assert("// @cs2 switch"@ =~= "// @cs2 "@ + "switch"@);
    lemma_content("switch"@);
    assert(!"name "@.is_prefix_of("switch"@)) by {
        if "name "@.is_prefix_of("switch"@) {
            assert("switch"@[0] == "name "@[0]);
        }
    }
    assert(!"locals "@.is_prefix_of("switch"@));
    assert(!"args "@.is_prefix_of("switch"@)) by {
        if "args "@.is_prefix_of("switch"@) {
            assert("switch"@[0] == "args "@[0]);
        }
    }
    assert(!"case "@.is_prefix_of("switch"@)) by {
        if "case "@.is_prefix_of("switch"@) {
            assert("switch"@[0] == "case "@[0]);
        }
    }
}

/// The content of a case line.
proof fn lemma_case_content(c: SwitchCase)
    ensures
        pragma_content(case_line(c)) == Some(
            "case "@ + dec_int(c.value as int) + seq![' '] + dec_int(c.target as int),
        ),
{
    reveal_strlit("//   @cs2 case ");
    reveal_strlit("//   @cs2 ");
    reveal_strlit("// @cs2 ");
    reveal_strlit("case ");
    let a = dec_int(c.value as int);
    let b = dec_int(c.target as int);
    lemma_dec_facts(c.value as int);
    lemma_dec_facts(c.target as int);
    let l = case_line(c);
    let x = "case "@ + a + seq![' '] + b;
    assert(l =~= "//   @cs2 "@ + x);
    assert(l[0] == '/');
    assert(l.last() == b.last());
    lemma_trim_id(l);
    assert(!"// @cs2 "@.is_prefix_of(l)) by {
        if "// @cs2 "@.is_prefix_of(l) {
            assert(l[3] == "// @cs2 "@[3]);
        }
    }
    assert(l.take(10) =~= "//   @cs2 "@);
    assert(l.skip(10) =~= x);
    assert(x[0] == 'c');
    assert(x.last() == b.last());
    lemma_trim_id(x);
}

/// The line of one switch case.
proof fn lemma_step_case(st: PragmaState, c: SwitchCase)
    ensures
        pragma_step(st, case_line(c)) == Some(
            PragmaState { pending: st.pending.push(c), open: true, ..st },
        ),
        !line_slices_lone_quote(case_line(c)),
{
    reveal_strlit("name ");
    reveal_strlit("locals ");
    reveal_strlit("args ");
    reveal_strlit("case ");
    let a = dec_int(c.value as int);
    let b = dec_int(c.target as int);
    lemma_dec_facts(c.value as int);
    lemma_dec_facts(c.target as int);
    lemma_case_content(c);
    let x = "case "@ + a + seq![' '] + b;
    assert(x[0] == 'c');
    assert(!"name "@.is_prefix_of(x)) by {
        if "name "@.is_prefix_of(x) {
            assert(x[0] == "name "@[0]);
        }
    }
    assert(!"locals "@.is_prefix_of(x)) by {
        if "locals "@.is_prefix_of(x) {
            assert(x[0] == "locals "@[0]);
        }
    }
    assert(!"args "@.is_prefix_of(x)) by {
        if "args "@.is_prefix_of(x) {
            assert(x[0] == "args "@[0]);
        }
    }
    assert(x.take(5) =~= "case "@);
    assert(x.skip(5) =~= a + seq![' '] + b);
    lemma_split_two(a, b);
    lemma_i32_text(c.value);
    lemma_i32_text(c.target);
}

/// The name line.
proof fn lemma_step_name(st: PragmaState, n: Seq<char>)
    requires
        lacks(n, '\\'),
        lacks(n, '\n'),
    ensures
        pragma_step(st, "// @cs2 name \""@ + escape_name(n) + seq!['"']) == Some(
            PragmaState { name: Some(n), ..st },
        ),
        !line_slices_lone_quote("// @cs2 name \""@ + escape_name(n) + seq!['"']),
{
    reveal_strlit("// @cs2 name \"");
    reveal_strlit("// @cs2 ");
    reveal_strlit("name ");
    let e = escape_name(n);
    let v = seq!['"'] + e + seq!['"'];
    let x = "name "@ + v;
    assert("// @cs2 name \""@ + e + seq!['"'] =~= "// @cs2 "@ + x);
    assert(x[0] == 'n');
    assert(x.last() == '"');
    lemma_content(x);
    assert(x.take(5) =~= "name "@);
    assert(x.skip(5) =~= v);
    lemma_trim_id(v);
    assert(unquote(v) =~= e);
    lemma_unescape_name(n);
    assert(v != seq!['"']) by {
        assert(v.len() >= 2);
    }
}

proof fn lemma_no_ws_lacks_newline(c: Seq<char>)
    requires
        no_ws(c),
    ensures
        lacks(c, '\n'),
{
    assert forall|i: int| 0 <= i < c.len() implies #[trigger] c[i] != '\n' by {
        assert(!is_ws(c[i]));
    }
}

/// Facts about a `key=value` count word.
proof fn lemma_count_word(key: Seq<char>, v: u16)
    requires
        key.len() > 0,
        no_ws(key),
        lacks(key, '='),
    ensures
        ({
            let w = key + seq!['='] + dec_int(v as int);
            &&& w.len() > 0
            &&& no_ws(w)
            &&& index_of(w, '=') == key.len()
            &&& w.take(key.len() as int) == key
            &&& w.skip(key.len() as int + 1) == dec_int(v as int)
            &&& p_u16(w.skip(key.len() as int + 1)) == Some(v)
        }),
{
    lemma_dec_facts(v as int);
    let d = dec_int(v as int);
    let w = key + seq!['='] + d;
    assert(w =~= key + (seq!['='] + d));
    lemma_index_of_concat(key, seq!['='] + d, '=');
    assert(w.take(key.len() as int) =~= key);
    assert(w.skip(key.len() as int + 1) =~= d);
    lemma_no_ws_concat(key, seq!['=']);
    lemma_no_ws_concat(key + seq!['='], d);
    lemma_u16_text(v);
}

/// Reading a count list gives its three counts.
#[verifier::spinoff_prover]
#[verifier::rlimit(60)]
proof fn lemma_counts_read(cur: (u16, u16, u16), a: u16, b: u16, c: u16)
    ensures
        apply_counts(cur, split_ws(counts_text(a, b, c))) == Some((a, b, c)),
        counts_text(a, b, c).len() > 0,
        !is_ws(counts_text(a, b, c).last()),
        lacks(counts_text(a, b, c), '\n'),
{
    reveal_strlit("int=");
    reveal_strlit(" obj=");
    reveal_strlit(" long=");
    reveal_strlit("int");
    reveal_strlit("obj");
    reveal_strlit("long");
    let k1 = "int"@;
    let k2 = "obj"@;
    let k3 = "long"@;
    lemma_count_word(k1, a);
    lemma_count_word(k2, b);
    lemma_count_word(k3, c);
    let w1 = k1 + seq!['='] + dec_int(a as int);
    let w2 = k2 + seq!['='] + dec_int(b as int);
    let w3 = k3 + seq!['='] + dec_int(c as int);
    let t = counts_text(a, b, c);
    assert("int="@ =~= k1 + seq!['=']);
    assert(" obj="@ =~= seq![' '] + k2 + seq!['=']);
    assert(" long="@ =~= seq![' '] + k3 + seq!['=']);
    assert(t =~= w1 + seq![' '] + w2 + seq![' '] + w3);
    lemma_split_three(w1, w2, w3);
    let parts = seq![w1, w2, w3];
    assert(parts.drop_first() =~= seq![w2, w3]);
    assert(parts.drop_first().drop_first() =~= seq![w3]);
    assert(seq![w3].drop_first() =~= Seq::<Seq<char>>::empty());
    assert(k2 != k1) by {
        assert(k2[0] != k1[0]);
    }
    assert(k3 != k1) by {
        assert(k3[0] != k1[0]);
    }
    assert(k3 != k2) by {
        assert(k3[0] != k2[0]);
    }
    assert(apply_count(cur, w1) == Some((a, cur.1, cur.2)));
    assert(apply_count((a, cur.1, cur.2), w2) == Some((a, b, cur.2)));
    assert(apply_count((a, b, cur.2), w3) == Some((a, b, c)));
    reveal_with_fuel(apply_counts, 4);
    lemma_dec_facts(c as int);
    assert(t.last() == dec_int(c as int).last());
    assert(lacks(t, '\n')) by {
        lemma_no_ws_lacks_newline(w1);
        lemma_no_ws_lacks_newline(w2);
        lemma_no_ws_lacks_newline(w3);
        lemma_lacks_concat(w1, seq![' '], '\n');
        lemma_lacks_concat(w1 + seq![' '], w2, '\n');
        lemma_lacks_concat(w1 + seq![' '] + w2, seq![' '], '\n');
        lemma_lacks_concat(w1 + seq![' '] + w2 + seq![' '], w3, '\n');
    }
}

/// The local counts line.
#[verifier::spinoff_prover]
#[verifier::rlimit(80)]
proof fn lemma_step_locals(st: PragmaState, a: u16, b: u16, c: u16)
    ensures
        pragma_step(st, "// @cs2 locals "@ + counts_text(a, b, c)) == Some(
            PragmaState { locals: (a, b, c), ..st },
        ),
        !line_slices_lone_quote("// @cs2 locals "@ + counts_text(a, b, c)),
        lacks("// @cs2 locals "@ + counts_text(a, b, c), '\n'),
        !is_ws(("// @cs2 locals "@ + counts_text(a, b, c)).last()),
{
    reveal_strlit("// @cs2 locals ");
    reveal_strlit("// @cs2 ");
    reveal_strlit("locals ");
    reveal_strlit("name ");
    let ct = counts_text(a, b, c);
    lemma_counts_read(st.locals, a, b, c);
    let x = "locals "@ + ct;
    assert("// @cs2 locals "@ + ct =~= "// @cs2 "@ + x);
    assert(x[0] == 'l');
    assert(x.last() == ct.last());
    lemma_content(x);
    assert(!"name "@.is_prefix_of(x)) by {
        if "name "@.is_prefix_of(x) {
            assert(x[0] == "name "@[0]);
        }
    }
    assert(x.take(7) =~= "locals "@);
    assert(x.skip(7) =~= ct);
    assert(lacks("// @cs2 locals "@, '\n'));
    lemma_lacks_concat("// @cs2 locals "@, ct, '\n');
}

proof fn lemma_args_content(a: u16, b: u16, c: u16)
    ensures
        pragma_content("// @cs2 args "@ + counts_text(a, b, c)) == Some(
            "args "@ + counts_text(a, b, c),
        ),
        lacks("// @cs2 args "@ + counts_text(a, b, c), '\n'),
        !is_ws(("// @cs2 args "@ + counts_text(a, b, c)).last()),
{
    reveal_strlit("// @cs2 args ");
    reveal_strlit("// @cs2 ");
    reveal_strlit("args ");
    let ct = counts_text(a, b, c);
    lemma_counts_read((0, 0, 0), a, b, c);
    let x = "args "@ + ct;
    assert("// @cs2 args "@ + ct =~= "// @cs2 "@ + x);
    assert(x[0] == 'a');
    assert(x.last() == ct.last());
    lemma_content(x);
    assert(lacks("// @cs2 args "@, '\n'));
    lemma_lacks_concat("// @cs2 args "@, ct, '\n');
}

/// The argument counts line.
#[verifier::spinoff_prover]
proof fn lemma_step_args(st: PragmaState, a: u16, b: u16, c: u16)
    ensures
        pragma_step(st, "// @cs2 args "@ + counts_text(a, b, c)) == Some(
            PragmaState { args: (a, b, c), ..st },
        ),
        !line_slices_lone_quote("// @cs2 args "@ + counts_text(a, b, c)),
        lacks("// @cs2 args "@ + counts_text(a, b, c), '\n'),
        !is_ws(("// @cs2 args "@ + counts_text(a, b, c)).last()),
{
    reveal_strlit("args ");
    reveal_strlit("locals ");
    reveal_strlit("name ");
    let ct = counts_text(a, b, c);
    lemma_args_content(a, b, c);
    lemma_counts_read(st.args, a, b, c);
    let x = "args "@ + ct;
    assert(x[0] == 'a');
    assert(!"name "@.is_prefix_of(x)) by {
        if "name "@.is_prefix_of(x) {
            assert(x[0] == "name "@[0]);
        }
    }
    assert(!"locals "@.is_prefix_of(x)) by {
        if "locals "@.is_prefix_of(x) {
            assert(x[0] == "locals "@[0]);
        }
    }
    assert(x.take(5) =~= "args "@);
    assert(x.skip(5) =~= ct);
}

// ---------------------------------------------------------------------------
// Folding lines
// ---------------------------------------------------------------------------

proof fn lemma_fold_concat(st: PragmaState, a: Seq<Seq<char>>, b: Seq<Seq<char>>)
    ensures
        pragma_fold(st, a + b) == match pragma_fold(st, a) {
            Some(x) => pragma_fold(x, b),
            None => None,
        },
    decreases a.len(),
{
    if a.len() == 0 {
        assert(a + b =~= b);
    } else {
        assert((a + b)[0] == a[0]);
        assert((a + b).drop_first() =~= a.drop_first() + b);
        match pragma_step(st, a[0]) {
            Some(next) => lemma_fold_concat(next, a.drop_first(), b),
            None => {},
        }
    }
}

proof fn lemma_fold_one(st: PragmaState, l: Seq<char>)
    ensures
        pragma_fold(st, seq![l]) == pragma_step(st, l),
{
    assert(seq![l].drop_first() =~= Seq::<Seq<char>>::empty());
    reveal_with_fuel(pragma_fold, 2);
}

/// The parser state after the lines of `code`, from a state holding only
/// the header fields of `base`: a trailing switch is still open.
pub open spec fn after_code(base: PragmaState, code: Seq<InstructionV>) -> PragmaState {
    if code.len() > 0 && code.last().command == "switch"@ {
        PragmaState {
            code: zero_opcodes(code.drop_last()),
            pending: code.last().operand->Switch_0,
            open: true,
            ..base
        }
    } else {
        PragmaState { code: zero_opcodes(code), pending: seq![], open: false, ..base }
    }
}

proof fn lemma_flush_after(base: PragmaState, code: Seq<InstructionV>)
    requires
        forall|i: int| 0 <= i < code.len() ==> spellable_instruction(#[trigger] code[i]),
    ensures
        flush(after_code(base, code)) == (PragmaState {
            code: zero_opcodes(code),
            pending: seq![],
            open: false,
            ..base
        }),
{
    if code.len() > 0 && code.last().command == "switch"@ {
        let last = code.last();
        assert(spellable_instruction(code[code.len() - 1]));
        assert(last.operand is Switch);
        assert(zero_opcodes(code) =~= zero_opcodes(code.drop_last()).push(zero_opcode(last)));
    }
}

proof fn lemma_fold_cases(st: PragmaState, cases: Seq<SwitchCase>)
    requires
        st.open,
    ensures
        pragma_fold(st, case_lines(cases)) == Some(
            PragmaState { pending: st.pending + cases, ..st },
        ),
    decreases cases.len(),
{
    if cases.len() == 0 {
        assert(st.pending + cases =~= st.pending);
        assert(case_lines(cases) =~= Seq::<Seq<char>>::empty());
    } else {
        let pre = cases.drop_last();
        let c = cases.last();
        lemma_fold_cases(st, pre);
        assert(case_lines(cases) =~= case_lines(pre) + seq![case_line(c)]);
        lemma_fold_concat(st, case_lines(pre), seq![case_line(c)]);
        let mid = PragmaState { pending: st.pending + pre, ..st };
        lemma_fold_one(mid, case_line(c));
        lemma_step_case(mid, c);
        assert(mid.pending.push(c) =~= st.pending + cases);
    }
}

/// The lines of one instruction take the parser from the state after a
/// prefix to the state after the prefix and the instruction.
proof fn lemma_fold_instruction(base: PragmaState, prefix: Seq<InstructionV>, ins: InstructionV)
    requires
        forall|i: int| 0 <= i < prefix.len() ==> spellable_instruction(#[trigger] prefix[i]),
        spellable_instruction(ins),
    ensures
        pragma_fold(after_code(base, prefix), instr_lines(ins)) == Some(
            after_code(base, prefix.push(ins)),
        ),
{
    let st = after_code(base, prefix);
    lemma_flush_after(base, prefix);
    let code = prefix.push(ins);
    assert(code.drop_last() =~= prefix);
    assert(code.last() == ins);
    assert(zero_opcodes(code) =~= zero_opcodes(prefix).push(zero_opcode(ins)));
    if ins.command == "switch"@ {
        let cases = ins.operand->Switch_0;
        let ls = instr_lines(ins);
        assert(ls =~= seq!["// @cs2 switch"@] + case_lines(cases));
        lemma_fold_concat(st, seq!["// @cs2 switch"@], case_lines(cases));
        lemma_fold_one(st, "// @cs2 switch"@);
        lemma_step_switch_head(st);
        let head = PragmaState { open: true, ..flush(st) };
        lemma_fold_cases(head, cases);
        assert(head.pending + cases =~= cases);
    } else {
        lemma_fold_one(st, "// @cs2 "@ + fmt_instruction(ins));
        lemma_step_instruction(st, ins);
    }
}

/// The lines of all instructions.
proof fn lemma_fold_code(base: PragmaState, code: Seq<InstructionV>)
    requires
        forall|i: int| 0 <= i < code.len() ==> spellable_instruction(#[trigger] code[i]),
    ensures
        pragma_fold(after_code(base, seq![]), code_lines(code)) == Some(after_code(base, code)),
    decreases code.len(),
{
    if code.len() == 0 {
        assert(code =~= Seq::<InstructionV>::empty());
        assert(code_lines(code) =~= Seq::<Seq<char>>::empty());
    } else {
        let pre = code.drop_last();
        assert forall|i: int| 0 <= i < pre.len() implies spellable_instruction(#[trigger] pre[i]) by {
            assert(pre[i] == code[i]);
        }
        lemma_fold_code(base, pre);
        assert(spellable_instruction(code[code.len() - 1]));
        lemma_fold_concat(after_code(base, seq![]), code_lines(pre), instr_lines(code.last()));
        lemma_fold_instruction(base, pre, code.last());
        assert(pre.push(code.last()) =~= code);
    }
}

/// A line the parser reads as written: non-empty, without a newline, not
/// ending in whitespace, and not slicing a lone quote.
pub open spec fn good_line(l: Seq<char>) -> bool {
    &&& l.len() > 0
    &&& lacks(l, '\n')
    &&& !is_ws(l.last())
    &&& !line_slices_lone_quote(l)
}

/// Every line of `ls` is good.
pub open spec fn all_good(ls: Seq<Seq<char>>) -> bool {
    forall|i: int| 0 <= i < ls.len() ==> good_line(#[trigger] ls[i])
}

proof fn lemma_all_good_concat(a: Seq<Seq<char>>, b: Seq<Seq<char>>)
    requires
        all_good(a),
        all_good(b),
    ensures
        all_good(a + b),
{
    assert forall|i: int| 0 <= i < (a + b).len() implies good_line(#[trigger] (a + b)[i]) by {
        if i < a.len() {
            assert((a + b)[i] == a[i]);
        } else {
            assert((a + b)[i] == b[i - a.len()]);
        }
    }
}

proof fn lemma_case_lines_good(cases: Seq<SwitchCase>)
    ensures
        all_good(case_lines(cases)),
    decreases cases.len(),
{
    if cases.len() > 0 {
        let c = cases.last();
        lemma_case_lines_good(cases.drop_last());
        lemma_step_case(initial_state(), c);
        reveal_strlit("//   @cs2 case ");
        let a = dec_int(c.value as int);
        let b = dec_int(c.target as int);
        lemma_dec_facts(c.value as int);
        lemma_dec_facts(c.target as int);
        let l = case_line(c);
        assert(lacks("//   @cs2 case "@, '\n'));
        lemma_lacks_concat("//   @cs2 case "@, a, '\n');
        lemma_lacks_concat("//   @cs2 case "@ + a, seq![' '], '\n');
        lemma_lacks_concat("//   @cs2 case "@ + a + seq![' '], b, '\n');
        assert(l.last() == b.last());
        assert(all_good(seq![l]));
        lemma_all_good_concat(case_lines(cases.drop_last()), seq![l]);
        assert(case_lines(cases) =~= case_lines(cases.drop_last()) + seq![l]);
    } else {
        assert(case_lines(cases) =~= Seq::<Seq<char>>::empty());
    }
}

proof fn lemma_instr_lines_good(ins: InstructionV)
    requires
        spellable_instruction(ins),
    ensures
        all_good(instr_lines(ins)),
{
    if ins.command == "switch"@ {
        reveal_strlit("// @cs2 switch");
        lemma_step_switch_head(initial_state());
        let h = "// @cs2 switch"@;
        assert(lacks(h, '\n'));
        assert(all_good(seq![h]));
        lemma_case_lines_good(ins.operand->Switch_0);
        lemma_all_good_concat(seq![h], case_lines(ins.operand->Switch_0));
    } else {
        reveal_strlit("// @cs2 ");
        lemma_instruction_body(ins);
        lemma_step_instruction(initial_state(), ins);
        let x = fmt_instruction(ins);
        let l = "// @cs2 "@ + x;
        assert(lacks("// @cs2 "@, '\n'));
        lemma_lacks_concat("// @cs2 "@, x, '\n');
        assert(l.last() == x.last());
        assert(all_good(seq![l]));
    }
}

proof fn lemma_code_lines_good(code: Seq<InstructionV>)
    requires
        forall|i: int| 0 <= i < code.len() ==> spellable_instruction(#[trigger] code[i]),
    ensures
        all_good(code_lines(code)),
    decreases code.len(),
{
    if code.len() > 0 {
        let pre = code.drop_last();
        assert forall|i: int| 0 <= i < pre.len() implies spellable_instruction(#[trigger] pre[i]) by {
            assert(pre[i] == code[i]);
        }
        lemma_code_lines_good(pre);
        assert(spellable_instruction(code[code.len() - 1]));
        lemma_instr_lines_good(code.last());
        lemma_all_good_concat(code_lines(pre), instr_lines(code.last()));
    } else {
        assert(code_lines(code) =~= Seq::<Seq<char>>::empty());
    }
}

/// Whether the assembly form can spell a script so that it reads back: a
/// name without backslashes or newlines, and spellable instructions.
pub open spec fn spellable_script(s: ScriptV) -> bool {
    &&& match s.name {
        Some(n) => lacks(n, '\\') && lacks(n, '\n'),
        None => true,
    }
    &&& forall|i: int| 0 <= i < s.code.len() ==> spellable_instruction(#[trigger] s.code[i])
}

/// The parser state holding the header fields of `s`.
pub open spec fn header_state(s: ScriptV) -> PragmaState {
    PragmaState {
        name: s.name,
        locals: (s.local_count_int, s.local_count_object, s.local_count_long),
        args: (s.argument_count_int, s.argument_count_object, s.argument_count_long),
        code: seq![],
        pending: seq![],
        open: false,
    }
}

proof fn lemma_header(s: ScriptV)
    requires
        spellable_script(s),
    ensures
        pragma_fold(initial_state(), header_lines(s)) == Some(header_state(s)),
        all_good(header_lines(s)),
{
    let l1 = "// @cs2 locals "@ + counts_text(
        s.local_count_int,
        s.local_count_object,
        s.local_count_long,
    );
    let l2 = "// @cs2 args "@ + counts_text(
        s.argument_count_int,
        s.argument_count_object,
        s.argument_count_long,
    );
    let rest = seq![l1, l2];
    let np: Seq<Seq<char>> = match s.name {
        Some(n) => seq!["// @cs2 name \""@ + escape_name(n) + seq!['"']],
        None => seq![],
    };
    assert(header_lines(s) =~= np + rest);
    let st0 = initial_state();
    let st1 = PragmaState { name: s.name, ..st0 };
    match s.name {
        Some(n) => {
            lemma_fold_one(st0, np[0]);
            lemma_step_name(st0, n);
            reveal_strlit("// @cs2 name \"");
            lemma_escape_name_lacks_newline(n);
            assert(lacks("// @cs2 name \""@, '\n'));
            lemma_lacks_concat("// @cs2 name \""@, escape_name(n), '\n');
            lemma_lacks_concat("// @cs2 name \""@ + escape_name(n), seq!['"'], '\n');
            assert(all_good(np));
        },
        None => {
            assert(np =~= Seq::<Seq<char>>::empty());
            assert(st1 == st0);
        },
    }
    lemma_fold_concat(st0, np, rest);
    assert(rest =~= seq![l1] + seq![l2]);
    lemma_fold_concat(st1, seq![l1], seq![l2]);
    lemma_fold_one(st1, l1);
    lemma_step_locals(st1, s.local_count_int, s.local_count_object, s.local_count_long);
    let st2 = PragmaState {
        locals: (s.local_count_int, s.local_count_object, s.local_count_long),
        ..st1
    };
    lemma_fold_one(st2, l2);
    lemma_step_args(st2, s.argument_count_int, s.argument_count_object, s.argument_count_long);
    assert(all_good(rest));
    lemma_all_good_concat(np, rest);
}

proof fn lemma_no_lone_quote(st: PragmaState, ls: Seq<Seq<char>>)
    requires
        all_good(ls),
    ensures
        !pragma_hits_lone_quote(st, ls),
    decreases ls.len(),
{
    if ls.len() > 0 {
        assert(good_line(ls[0]));
        assert forall|i: int| 0 <= i < ls.drop_first().len() implies good_line(
            #[trigger] ls.drop_first()[i],
        ) by {
            assert(ls.drop_first()[i] == ls[i + 1]);
        }
        match pragma_step(st, ls[0]) {
            Some(next) => lemma_no_lone_quote(next, ls.drop_first()),
            None => {},
        }
    }
}

/// The assembly form is lossless: for a script it can spell, the text that
/// `script_to_asm` writes is accepted by `parse_cs2_asm` (it slices no lone
/// quote) and reads back as the same script, with every opcode zero.
pub proof fn lemma_asm_roundtrip(s: ScriptV)
    requires
        spellable_script(s),
    ensures
        !pragma_hits_lone_quote(initial_state(), lines_spec(asm_text(s))),
        parse_pragma_spec(asm_text(s)) == Some(ScriptV { code: zero_opcodes(s.code), ..s }),
{
    lemma_header(s);
    lemma_code_lines_good(s.code);
    lemma_all_good_concat(header_lines(s), code_lines(s.code));
    let ls = asm_lines(s);
    assert forall|i: int|
        0 <= i < ls.len() implies lacks(#[trigger] ls[i], '\n') && (ls[i].len() == 0 || ls[i].last()
        != '\r') by {
        assert(good_line(ls[i]));
    }
    lemma_lines_of_join(ls);
    lemma_no_lone_quote(initial_state(), ls);
    let base = header_state(s);
    lemma_fold_concat(initial_state(), header_lines(s), code_lines(s.code));
    assert(after_code(base, seq![]) == base) by {
        assert(zero_opcodes(Seq::<InstructionV>::empty()) =~= Seq::<InstructionV>::empty());
    }
    lemma_fold_code(base, s.code);
    lemma_flush_after(base, s.code);
}

} // verus!
