//! The structured export format: an indented, fully round-trippable
//! rendering of the entry list, also used as the persisted byte form.
//!
//! A list is rendered as
//!
//! ```text
//! [
//!   {
//!     id: "...",
//!     date: "...",
//!     org: "...",
//!     hours: "...",
//!     tasks: "...",
//!     reflection: "...",
//!     tags: "...",
//!     created_at: "...",
//!   },
//! ]
//! ```
//!
//! with `"` and `\` escaped by a backslash inside quoted values. The
//! decoder accepts exactly this shape and additionally checks the entry
//! invariant, so a corrupt slot degrades to "no data". The round-trip
//! law is proved here: decoding an encoded valid list gives it back.

use vstd::prelude::*;
use vstd::string::StringExecFns;
use vstd::string::StrSliceExecFns;
use crate::model::{Entry, EntryView, valid_entry, valid_list, hours_ok};
use crate::text::chars_of;

verus! {

// ---------------------------------------------------------------- encoding

/// How one character is escaped inside a quoted value.
pub open spec fn esc_char(c: char) -> Seq<char> {
    if c == '"' {
        seq!['\\', '"']
    } else if c == '\\' {
        seq!['\\', '\\']
    } else {
        seq![c]
    }
}

/// A value with `"` and `\` escaped.
pub open spec fn esc(s: Seq<char>) -> Seq<char>
    decreases s.len(),
{
    if s.len() == 0 {
        Seq::empty()
    } else {
        esc_char(s[0]) + esc(s.drop_first())
    }
}

pub open spec fn lit_list_open() -> Seq<char> {
    "[\n"@
}

pub open spec fn lit_list_close() -> Seq<char> {
    "]"@
}

pub open spec fn lit_entry_open() -> Seq<char> {
    "  {\n"@
}

pub open spec fn lit_entry_close() -> Seq<char> {
    "  },\n"@
}

/// Closing quote of a field value, then the separator.
pub open spec fn lit_field_end() -> Seq<char> {
    "\",\n"@
}

pub open spec fn lit_comma_nl() -> Seq<char> {
    ",\n"@
}

pub open spec fn pre_id() -> Seq<char> {
    "    id: \""@
}

pub open spec fn pre_date() -> Seq<char> {
    "    date: \""@
}

pub open spec fn pre_org() -> Seq<char> {
    "    org: \""@
}

pub open spec fn pre_hours() -> Seq<char> {
    "    hours: \""@
}

pub open spec fn pre_tasks() -> Seq<char> {
    "    tasks: \""@
}

pub open spec fn pre_reflection() -> Seq<char> {
    "    reflection: \""@
}

pub open spec fn pre_tags() -> Seq<char> {
    "    tags: \""@
}

pub open spec fn pre_created_at() -> Seq<char> {
    "    created_at: \""@
}

/// One field line: label, quoted escaped value, separator.
pub open spec fn enc_field(pre: Seq<char>, v: Seq<char>) -> Seq<char> {
    pre + esc(v) + lit_field_end()
}

/// One rendered entry.
pub open spec fn enc_entry(e: EntryView) -> Seq<char> {
    lit_entry_open() + (enc_field(pre_id(), e.id) + (enc_field(pre_date(), e.date) + (enc_field(
        pre_org(),
        e.org,
    ) + (enc_field(pre_hours(), e.hours) + (enc_field(pre_tasks(), e.tasks) + (enc_field(
        pre_reflection(),
        e.reflection,
    ) + (enc_field(pre_tags(), e.tags) + (enc_field(pre_created_at(), e.created_at)
        + lit_entry_close()))))))))
}

/// The rendered entries, in list order.
pub open spec fn enc_entries(l: Seq<EntryView>) -> Seq<char>
    decreases l.len(),
{
    if l.len() == 0 {
        Seq::empty()
    } else {
        enc_entry(l[0]) + enc_entries(l.drop_first())
    }
}

/// The whole structured rendering of a list.
pub open spec fn enc_list(l: Seq<EntryView>) -> Seq<char> {
    lit_list_open() + enc_entries(l) + lit_list_close()
}

// ---------------------------------------------------------------- parsing

/// Consumes `lit` from the front of `t`.
pub open spec fn p_lit(t: Seq<char>, lit: Seq<char>) -> Option<Seq<char>> {
    if lit.len() <= t.len() && t.take(lit.len() as int) == lit {
        Some(t.skip(lit.len() as int))
    } else {
        None
    }
}

/// Consumes a quoted value up to and including its closing quote,
/// undoing the escaping.
pub open spec fn p_str(t: Seq<char>) -> Option<(Seq<char>, Seq<char>)>
    decreases t.len(),
{
    if t.len() == 0 {
        None
    } else if t[0] == '"' {
        Some((Seq::empty(), t.drop_first()))
    } else if t[0] == '\\' {
        if t.len() >= 2 && (t[1] == '"' || t[1] == '\\') {
            match p_str(t.skip(2)) {
                Some((v, r)) => Some((seq![t[1]] + v, r)),
                None => None,
            }
        } else {
            None
        }
    } else {
        match p_str(t.drop_first()) {
            Some((v, r)) => Some((seq![t[0]] + v, r)),
            None => None,
        }
    }
}

/// Consumes one field line.
pub open spec fn p_field(t: Seq<char>, pre: Seq<char>) -> Option<(Seq<char>, Seq<char>)> {
    match p_lit(t, pre) {
        Some(r1) => match p_str(r1) {
            Some((v, r2)) => match p_lit(r2, lit_comma_nl()) {
                Some(r3) => Some((v, r3)),
                None => None,
            },
            None => None,
        },
        None => None,
    }
}

/// Consumes one rendered entry.
pub open spec fn p_entry(t: Seq<char>) -> Option<(EntryView, Seq<char>)> {
    match p_lit(t, lit_entry_open()) {
        Some(r0) => match p_field(r0, pre_id()) {
            Some((id, r1)) => match p_field(r1, pre_date()) {
                Some((date, r2)) => match p_field(r2, pre_org()) {
                    Some((org, r3)) => match p_field(r3, pre_hours()) {
                        Some((hours, r4)) => match p_field(r4, pre_tasks()) {
                            Some((tasks, r5)) => match p_field(r5, pre_reflection()) {
                                Some((reflection, r6)) => match p_field(r6, pre_tags()) {
                                    Some((tags, r7)) => match p_field(r7, pre_created_at()) {
                                        Some((created_at, r8)) => match p_lit(
                                            r8,
                                            lit_entry_close(),
                                        ) {
                                            Some(r9) => Some(
                                                (
                                                    EntryView {
                                                        id,
                                                        date,
                                                        org,
                                                        hours,
                                                        tasks,
                                                        reflection,
                                                        tags,
                                                        created_at,
                                                    },
                                                    r9,
                                                ),
                                            ),
                                            None => None,
                                        },
                                        None => None,
                                    },
                                    None => None,
                                },
                                None => None,
                            },
                            None => None,
                        },
                        None => None,
                    },
                    None => None,
                },
                None => None,
            },
            None => None,
        },
        None => None,
    }
}

/// Consumes rendered entries until the closing bracket.
pub open spec fn p_entries(t: Seq<char>) -> Option<(Seq<EntryView>, Seq<char>)>
    decreases t.len(),
{
    match p_lit(t, lit_list_close()) {
        Some(r) => Some((Seq::empty(), r)),
        None => match p_entry(t) {
            Some((e, r)) => if r.len() < t.len() {
                match p_entries(r) {
                    Some((l, r2)) => Some((seq![e] + l, r2)),
                    None => None,
                }
            } else {
                None
            },
            None => None,
        },
    }
}

/// Decodes a whole structured rendering: the exact shape, nothing
/// after it, and every entry satisfying the storage invariant.
pub open spec fn decode_spec(t: Seq<char>) -> Option<Seq<EntryView>> {
    match p_lit(t, lit_list_open()) {
        Some(r) => match p_entries(r) {
            Some((l, rest)) => if rest.len() == 0 && valid_list(l) {
                Some(l)
            } else {
                None
            },
            None => None,
        },
        None => None,
    }
}

// ------------------------------------------------------------ round trip

proof fn lemma_p_lit(lit: Seq<char>, rest: Seq<char>)
    ensures
        p_lit(lit + rest, lit) == Some(rest),
{
    assert((lit + rest).take(lit.len() as int) =~= lit);
    assert((lit + rest).skip(lit.len() as int) =~= rest);
}

proof fn lemma_p_str_esc(s: Seq<char>, rest: Seq<char>)
    ensures
        p_str(esc(s) + seq!['"'] + rest) == Some((s, rest)),
    decreases s.len(),
{
    let t = esc(s) + seq!['"'] + rest;
    if s.len() == 0 {
        assert(t =~= seq!['"'] + rest);
        assert(t[0] == '"');
        assert(t.drop_first() =~= rest);
    } else {
        let c = s[0];
        let s1 = s.drop_first();
        lemma_p_str_esc(s1, rest);
        assert(t =~= esc_char(c) + (esc(s1) + seq!['"'] + rest));
        if c == '"' || c == '\\' {
            assert(t[0] == '\\');
            assert(t[1] == c);
            assert(t.len() >= 2);
            assert(t.skip(2) =~= esc(s1) + seq!['"'] + rest);
            assert(p_str(t) == Some((seq![c] + s1, rest)));
        } else {
            assert(t[0] == c);
            assert(c != '"' && c != '\\');
            assert(t.drop_first() =~= esc(s1) + seq!['"'] + rest);
            assert(p_str(t) == Some((seq![c] + s1, rest)));
        }
        assert(seq![c] + s1 =~= s);
    }
}

proof fn lemma_p_field(pre: Seq<char>, v: Seq<char>, rest: Seq<char>)
    ensures
        p_field(enc_field(pre, v) + rest, pre) == Some((v, rest)),
{
    reveal_strlit("\",\n");
    reveal_strlit(",\n");
    assert(lit_field_end() =~= seq!['"'] + lit_comma_nl());
    let x1 = lit_comma_nl() + rest;
    let x2 = esc(v) + seq!['"'] + x1;
    assert(enc_field(pre, v) + rest =~= pre + x2);
    lemma_p_lit(pre, x2);
    lemma_p_str_esc(v, x1);
    lemma_p_lit(lit_comma_nl(), rest);
}

#[verifier::rlimit(100)]
proof fn lemma_p_entry(e: EntryView, rest: Seq<char>)
    ensures
        p_entry(enc_entry(e) + rest) == Some((e, rest)),
{
    let n9 = lit_entry_close();
    let n8 = enc_field(pre_created_at(), e.created_at) + n9;
    let n7 = enc_field(pre_tags(), e.tags) + n8;
    let n6 = enc_field(pre_reflection(), e.reflection) + n7;
    let n5 = enc_field(pre_tasks(), e.tasks) + n6;
    let n4 = enc_field(pre_hours(), e.hours) + n5;
    let n3 = enc_field(pre_org(), e.org) + n4;
    let n2 = enc_field(pre_date(), e.date) + n3;
    let n1 = enc_field(pre_id(), e.id) + n2;
    assert(enc_entry(e) =~= lit_entry_open() + n1);

    let a9 = n9 + rest;
    let a8 = n8 + rest;
    let a7 = n7 + rest;
    let a6 = n6 + rest;
    let a5 = n5 + rest;
    let a4 = n4 + rest;
    let a3 = n3 + rest;
    let a2 = n2 + rest;
    let a1 = n1 + rest;
    assert(enc_entry(e) + rest =~= lit_entry_open() + a1);
    lemma_p_lit(lit_entry_open(), a1);
    assert(a1 =~= enc_field(pre_id(), e.id) + a2);
    lemma_p_field(pre_id(), e.id, a2);
    assert(a2 =~= enc_field(pre_date(), e.date) + a3);
    lemma_p_field(pre_date(), e.date, a3);
    assert(a3 =~= enc_field(pre_org(), e.org) + a4);
    lemma_p_field(pre_org(), e.org, a4);
    assert(a4 =~= enc_field(pre_hours(), e.hours) + a5);
    lemma_p_field(pre_hours(), e.hours, a5);
    assert(a5 =~= enc_field(pre_tasks(), e.tasks) + a6);
    lemma_p_field(pre_tasks(), e.tasks, a6);
    assert(a6 =~= enc_field(pre_reflection(), e.reflection) + a7);
    lemma_p_field(pre_reflection(), e.reflection, a7);
    assert(a7 =~= enc_field(pre_tags(), e.tags) + a8);
    lemma_p_field(pre_tags(), e.tags, a8);
    assert(a8 =~= enc_field(pre_created_at(), e.created_at) + a9);
    lemma_p_field(pre_created_at(), e.created_at, a9);
    assert(a9 =~= lit_entry_close() + rest);
    lemma_p_lit(lit_entry_close(), rest);
    assert((EntryView {
        id: e.id,
        date: e.date,
        org: e.org,
        hours: e.hours,
        tasks: e.tasks,
        reflection: e.reflection,
        tags: e.tags,
        created_at: e.created_at,
    }) =~= e);
}

#[verifier::rlimit(100)]
proof fn lemma_p_entries(l: Seq<EntryView>, rest: Seq<char>)
    ensures
        p_entries(enc_entries(l) + (lit_list_close() + rest)) == Some((l, rest)),
    decreases l.len(),
{
    reveal_strlit("]");
    reveal_strlit("  {\n");
    let t = enc_entries(l) + (lit_list_close() + rest);
    if l.len() == 0 {
        assert(t =~= lit_list_close() + rest);
        lemma_p_lit(lit_list_close(), rest);
    } else {
        let e = l[0];
        let l1 = l.drop_first();
        let b = enc_entries(l1) + (lit_list_close() + rest);
        assert(t =~= enc_entry(e) + b);
        assert(lit_entry_open().len() == 4 && lit_entry_open()[0] == ' ');
        assert(enc_entry(e)[0] == ' ');
        assert(t.len() >= 1 && t[0] == ' ');
        assert(lit_list_close().len() == 1 && lit_list_close()[0] == ']');
        assert(p_lit(t, lit_list_close()) is None) by {
            if p_lit(t, lit_list_close()) is Some {
                assert(t.take(1)[0] == t[0]);
            }
        }
        lemma_p_entry(e, b);
        assert(b.len() < t.len()) by {
            assert(enc_entry(e).len() >= lit_entry_open().len());
        }
        lemma_p_entries(l1, rest);
        assert(p_entries(t) == Some((seq![e] + l1, rest)));
        assert(seq![e] + l1 =~= l);
    }
}

/// The round-trip law: decoding the structured rendering of any valid
/// entry list yields exactly that list, field for field and in order.
pub proof fn lemma_structured_round_trip(l: Seq<EntryView>)
    requires
        valid_list(l),
    ensures
        decode_spec(enc_list(l)) == Some(l),
{
    let x = enc_entries(l) + (lit_list_close() + Seq::<char>::empty());
    assert(enc_list(l) =~= lit_list_open() + x);
    lemma_p_lit(lit_list_open(), x);
    lemma_p_entries(l, Seq::<char>::empty());
}

// ------------------------------------------------------------- encoder

fn esc_from(v: &Vec<char>, i: usize) -> (r: String)
    requires
        i <= v@.len(),
    ensures
        r@ == esc(v@.skip(i as int)),
    decreases v@.len() - i,
{
    if i == v.len() {
        proof {
            assert(v@.skip(i as int) =~= Seq::<char>::empty());
        }
        String::new()
    } else {
        proof {
            assert(v@.skip(i as int)[0] == v@[i as int]);
            assert(v@.skip(i as int).drop_first() =~= v@.skip(i + 1));
        }
        let mut r = String::new();
        if v[i] == '"' {
            r.push('\\');
            r.push('"');
        } else if v[i] == '\\' {
            r.push('\\');
            r.push('\\');
        } else {
            r.push(v[i]);
        }
        let tail = esc_from(v, i + 1);
        r.append(tail.as_str());
        proof {
            assert(r@ =~= esc_char(v@[i as int]) + esc(v@.skip(i + 1)));
        }
        r
    }
}

fn push_enc_field(out: &mut String, pre: &str, value: &str)
    ensures
        final(out)@ == old(out)@ + enc_field(pre@, value@),
{
    let v = chars_of(value);
    let body = esc_from(&v, 0);
    out.append(pre);
    out.append(body.as_str());
    out.append("\",\n");
    proof {
        assert(v@.skip(0) =~= value@);
        assert(out@ =~= old(out)@ + enc_field(pre@, value@));
    }
}

/// Renders one entry in the structured format.
#[verifier::rlimit(100)]
pub fn enc_entry_exec(e: &Entry) -> (r: String)
    ensures
        r@ == enc_entry(e@),
{
    let mut out = String::from_str("  {\n");
    push_enc_field(&mut out, "    id: \"", e.id.as_str());
    push_enc_field(&mut out, "    date: \"", e.date.as_str());
    push_enc_field(&mut out, "    org: \"", e.org.as_str());
    push_enc_field(&mut out, "    hours: \"", e.hours.as_str());
    push_enc_field(&mut out, "    tasks: \"", e.tasks.as_str());
    push_enc_field(&mut out, "    reflection: \"", e.reflection.as_str());
    push_enc_field(&mut out, "    tags: \"", e.tags.as_str());
    push_enc_field(&mut out, "    created_at: \"", e.created_at.as_str());
    out.append("  },\n");
    proof {
        assert(out@ =~= enc_entry(e@));
    }
    out
}

fn enc_entries_from(entries: &Vec<Entry>, i: usize) -> (r: String)
    requires
        i <= entries@.len(),
    ensures
        r@ == enc_entries(entries.deep_view().skip(i as int)),
    decreases entries@.len() - i,
{
    if i == entries.len() {
        proof {
            assert(entries.deep_view().skip(i as int) =~= Seq::<EntryView>::empty());
        }
        String::new()
    } else {
        proof {
            assert(entries.deep_view().skip(i as int)[0] == entries.deep_view()[i as int]);
            assert(entries.deep_view()[i as int] == entries@[i as int]@);
            assert(entries.deep_view().skip(i as int).drop_first() =~= entries.deep_view().skip(
                i + 1,
            ));
        }
        let mut r = enc_entry_exec(&entries[i]);
        let tail = enc_entries_from(entries, i + 1);
        r.append(tail.as_str());
        r
    }
}

/// Renders the whole entry list in the structured format.
pub fn to_structured(entries: &Vec<Entry>) -> (r: String)
    ensures
        r@ == enc_list(entries.deep_view()),
{
    let mut out = String::from_str("[\n");
    let body = enc_entries_from(entries, 0);
    out.append(body.as_str());
    out.append("]");
    proof {
        assert(entries.deep_view().skip(0) =~= entries.deep_view());
        assert(out@ =~= enc_list(entries.deep_view()));
    }
    out
}

// ------------------------------------------------------------- decoder

fn d_lit(v: &Vec<char>, i: usize, lit: &str) -> (r: Option<usize>)
    requires
        i <= v@.len(),
    ensures
        match r {
            Some(j) => i <= j <= v@.len() && j - i == lit@.len() && p_lit(
                v@.skip(i as int),
                lit@,
            ) == Some(v@.skip(j as int)),
            None => p_lit(v@.skip(i as int), lit@) is None,
        },
{
    let n: usize = lit.unicode_len();
    if n > v.len() - i {
        return None;
    }
    let mut k: usize = 0;
    while k < n
        invariant
            i + n <= v@.len(),
            v@.len() <= usize::MAX,
            n == lit@.len(),
            0 <= k <= n,
            forall|m: int| 0 <= m < k ==> v@[i + m] == lit@[m],
        decreases n - k,
    {
        if v[i + k] != lit.get_char(k) {
            proof {
                assert(v@.skip(i as int).take(n as int) != lit@) by {
                    if v@.skip(i as int).take(n as int) == lit@ {
                        assert(v@.skip(i as int).take(n as int)[k as int] == lit@[k as int]);
                    }
                }
            }
            return None;
        }
        k = k + 1;
    }
    proof {
        assert(v@.skip(i as int).take(n as int) =~= lit@);
        assert(v@.skip(i as int).skip(n as int) =~= v@.skip(i + n));
    }
    Some(i + n)
}

fn d_str(v: &Vec<char>, i: usize) -> (r: Option<(String, usize)>)
    requires
        i <= v@.len(),
    ensures
        match r {
            Some(p) => i < p.1 <= v@.len() && p_str(v@.skip(i as int)) == Some(
                (p.0@, v@.skip(p.1 as int)),
            ),
            None => p_str(v@.skip(i as int)) is None,
        },
    decreases v@.len() - i,
{
    if i == v.len() {
        return None;
    }
    proof {
        assert(v@.skip(i as int)[0] == v@[i as int]);
    }
    let c = v[i];
    if c == '"' {
        proof {
            assert(v@.skip(i as int).drop_first() =~= v@.skip(i + 1));
        }
        Some((String::new(), i + 1))
    } else if c == '\\' {
        if i + 1 < v.len() {
            proof {
                assert(v@.skip(i as int)[1] == v@[i + 1]);
            }
            let c2 = v[i + 1];
            if c2 == '"' || c2 == '\\' {
                proof {
                    assert(v@.skip(i as int).skip(2) =~= v@.skip(i + 2));
                }
                match d_str(v, i + 2) {
                    Some((tail, j)) => {
                        let mut s = String::new();
                        s.push(c2);
                        s.append(tail.as_str());
                        proof {
                            assert(s@ =~= seq![v@[i + 1]] + tail@);
                        }
                        Some((s, j))
                    },
                    None => None,
                }
            } else {
                None
            }
        } else {
            None
        }
    } else {
        proof {
            assert(v@.skip(i as int).drop_first() =~= v@.skip(i + 1));
        }
        match d_str(v, i + 1) {
            Some((tail, j)) => {
                let mut s = String::new();
                s.push(c);
                s.append(tail.as_str());
                proof {
                    assert(s@ =~= seq![v@[i as int]] + tail@);
                }
                Some((s, j))
            },
            None => None,
        }
    }
}

fn d_field(v: &Vec<char>, i: usize, pre: &str) -> (r: Option<(String, usize)>)
    requires
        i <= v@.len(),
    ensures
        match r {
            Some(p) => i < p.1 <= v@.len() && p_field(v@.skip(i as int), pre@) == Some(
                (p.0@, v@.skip(p.1 as int)),
            ),
            None => p_field(v@.skip(i as int), pre@) is None,
        },
{
    match d_lit(v, i, pre) {
        Some(j1) => match d_str(v, j1) {
            Some((s, j2)) => match d_lit(v, j2, ",\n") {
                Some(j3) => Some((s, j3)),
                None => None,
            },
            None => None,
        },
        None => None,
    }
}

#[verifier::rlimit(100)]
fn d_entry(v: &Vec<char>, i: usize) -> (r: Option<(Entry, usize)>)
    requires
        i <= v@.len(),
    ensures
        match r {
            Some(p) => i < p.1 <= v@.len() && p_entry(v@.skip(i as int)) == Some(
                (p.0@, v@.skip(p.1 as int)),
            ),
            None => p_entry(v@.skip(i as int)) is None,
        },
{
    let r0 = match d_lit(v, i, "  {\n") {
        Some(j) => j,
        None => {
            return None;
        },
    };
    let (id, r1) = match d_field(v, r0, "    id: \"") {
        Some(p) => p,
        None => {
            return None;
        },
    };
    let (date, r2) = match d_field(v, r1, "    date: \"") {
        Some(p) => p,
        None => {
            return None;
        },
    };
    let (org, r3) = match d_field(v, r2, "    org: \"") {
        Some(p) => p,
        None => {
            return None;
        },
    };
    let (hours, r4) = match d_field(v, r3, "    hours: \"") {
        Some(p) => p,
        None => {
            return None;
        },
    };
    let (tasks, r5) = match d_field(v, r4, "    tasks: \"") {
        Some(p) => p,
        None => {
            return None;
        },
    };
    let (reflection, r6) = match d_field(v, r5, "    reflection: \"") {
        Some(p) => p,
        None => {
            return None;
        },
    };
    let (tags, r7) = match d_field(v, r6, "    tags: \"") {
        Some(p) => p,
        None => {
            return None;
        },
    };
    let (created_at, r8) = match d_field(v, r7, "    created_at: \"") {
        Some(p) => p,
        None => {
            return None;
        },
    };
    let r9 = match d_lit(v, r8, "  },\n") {
        Some(j) => j,
        None => {
            return None;
        },
    };
    let e = Entry { id, date, org, hours, tasks, reflection, tags, created_at };
    proof {
        let parsed = p_entry(v@.skip(i as int));
        assert(parsed matches Some(q) && q.1 == v@.skip(r9 as int));
        assert(e@ =~= p_entry(v@.skip(i as int))->Some_0.0);
    }
    Some((e, r9))
}

fn d_entries(v: &Vec<char>, i: usize) -> (r: Option<(Vec<Entry>, usize)>)
    requires
        i <= v@.len(),
    ensures
        match r {
            Some(p) => i <= p.1 <= v@.len() && p_entries(v@.skip(i as int)) == Some(
                (p.0.deep_view(), v@.skip(p.1 as int)),
            ),
            None => p_entries(v@.skip(i as int)) is None,
        },
    decreases v@.len() - i,
{
    match d_lit(v, i, "]") {
        Some(j) => {
            let es: Vec<Entry> = Vec::new();
            proof {
                assert(es.deep_view() =~= Seq::<EntryView>::empty());
            }
            Some((es, j))
        },
        None => match d_entry(v, i) {
            Some((e, j)) => {
                proof {
                    assert(v@.skip(j as int).len() < v@.skip(i as int).len());
                }
                match d_entries(v, j) {
                    Some((es_tail, j2)) => {
                        let ghost pre_dv = es_tail.deep_view();
                        let mut es = es_tail;
                        es.insert(0, e);
                        proof {
                            assert(es.deep_view() =~= seq![e@] + pre_dv);
                        }
                        Some((es, j2))
                    },
                    None => None,
                }
            },
            None => None,
        },
    }
}

/// Decodes a structured rendering back into an entry list. Returns
/// `None` on any text that is not exactly the rendering of a valid
/// list.
pub fn from_structured(text: &str) -> (r: Option<Vec<Entry>>)
    ensures
        match r {
            Some(es) => decode_spec(text@) == Some(es.deep_view()),
            None => decode_spec(text@) is None,
        },
{
    let v = chars_of(text);
    proof {
        assert(v@.skip(0) =~= text@);
    }
    let j0 = match d_lit(&v, 0, "[\n") {
        Some(j) => j,
        None => {
            return None;
        },
    };
    let (es, j1) = match d_entries(&v, j0) {
        Some(p) => p,
        None => {
            return None;
        },
    };
    if j1 != v.len() {
        proof {
            assert(v@.skip(j1 as int).len() > 0);
        }
        return None;
    }
    let mut k: usize = 0;
    while k < es.len()
        invariant
            0 <= k <= es@.len(),
            forall|m: int| 0 <= m < k ==> valid_entry(#[trigger] es.deep_view()[m]),
            p_entries(v@.skip(j0 as int)) == Some(
                (es.deep_view(), v@.skip(v@.len() as int)),
            ),
            p_lit(v@.skip(0), "[\n"@) == Some(v@.skip(j0 as int)),
            j0 <= v@.len(),
            v@ == text@,
        decreases es@.len() - k,
    {
        proof {
            assert(es.deep_view()[k as int] == es@[k as int]@);
        }
        let date_ok = !es[k].date.as_str().is_empty();
        let org_ok = !es[k].org.as_str().is_empty();
        let hv = chars_of(es[k].hours.as_str());
        let h_ok = hours_ok(&hv);
        if !(date_ok && org_ok && h_ok) {
            proof {
                assert(!valid_entry(es.deep_view()[k as int]));
                assert(!valid_list(es.deep_view()));
            }
            return None;
        }
        k = k + 1;
    }
    proof {
        assert(valid_list(es.deep_view()));
        assert(v@.skip(v@.len() as int).len() == 0);
    }
    Some(es)
}

} // verus!
