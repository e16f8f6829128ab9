//! The tabular export format: one header row, then one row per entry,
//! columns `date,organization,hours,tasks,reflection,tags,created_at`.
//! Every text field is wrapped in double quotes with interior quotes
//! doubled; the hours column is emitted unquoted.

use vstd::prelude::*;
use vstd::string::StringExecFns;
use crate::model::{Entry, EntryView};
use crate::text::chars_of;

verus! {

/// How one character is escaped inside a quoted tabular field.
pub open spec fn csv_esc_char(c: char) -> Seq<char> {
    if c == '"' {
        seq!['"', '"']
    } else {
        seq![c]
    }
}

/// The body of a quoted tabular field: `s` with quotes doubled.
pub open spec fn csv_esc(s: Seq<char>) -> Seq<char>
    decreases s.len(),
{
    if s.len() == 0 {
        Seq::empty()
    } else {
        csv_esc_char(s[0]) + csv_esc(s.drop_first())
    }
}

/// A quoted tabular field.
pub open spec fn csv_field(s: Seq<char>) -> Seq<char> {
    seq!['"'] + csv_esc(s) + seq!['"']
}

/// One data row: quoted fields in the fixed column order, hours
/// unquoted, terminated by a newline.
pub open spec fn csv_row(e: EntryView) -> Seq<char> {
    csv_field(e.date) + seq![','] + csv_field(e.org) + seq![','] + e.hours + seq![',']
        + csv_field(e.tasks) + seq![','] + csv_field(e.reflection) + seq![','] + csv_field(e.tags)
        + seq![','] + csv_field(e.created_at) + seq!['\n']
}

/// The data rows of the table, in list order.
pub open spec fn csv_rows(l: Seq<EntryView>) -> Seq<char>
    decreases l.len(),
{
    if l.len() == 0 {
        Seq::empty()
    } else {
        csv_row(l[0]) + csv_rows(l.drop_first())
    }
}

/// The header row: the column names, comma-separated,
/// newline-terminated.
pub open spec fn csv_header() -> Seq<char> {
    "date,"@ + "organization,"@ + "hours,"@ + "tasks,"@ + "reflection,"@ + "tags,"@
        + "created_at"@ + seq!['\n']
}

/// The whole table: header plus one row per entry.
pub open spec fn tabular(l: Seq<EntryView>) -> Seq<char> {
    csv_header() + csv_rows(l)
}

/// The number of newline characters in `s`.
pub open spec fn nl_count(s: Seq<char>) -> nat
    decreases s.len(),
{
    if s.len() == 0 {
        0
    } else {
        (if s[0] == '\n' {
            1nat
        } else {
            0nat
        }) + nl_count(s.drop_first())
    }
}

/// No newline occurs in `s`.
pub open spec fn newline_free(s: Seq<char>) -> bool {
    forall|i: int| 0 <= i < s.len() ==> s[i] != '\n'
}

/// No exported field of the entry embeds a newline.
pub open spec fn entry_newline_free(e: EntryView) -> bool {
    &&& newline_free(e.date)
    &&& newline_free(e.org)
    &&& newline_free(e.hours)
    &&& newline_free(e.tasks)
    &&& newline_free(e.reflection)
    &&& newline_free(e.tags)
    &&& newline_free(e.created_at)
}

proof fn lemma_nl_concat(a: Seq<char>, b: Seq<char>)
    ensures
        nl_count(a + b) == nl_count(a) + nl_count(b),
    decreases a.len(),
{
    if a.len() == 0 {
        assert(a + b =~= b);
    } else {
        assert((a + b)[0] == a[0]);
        assert((a + b).drop_first() =~= a.drop_first() + b);
        lemma_nl_concat(a.drop_first(), b);
    }
}

proof fn lemma_nl_free(s: Seq<char>)
    requires
        newline_free(s),
    ensures
        nl_count(s) == 0,
    decreases s.len(),
{
    if s.len() > 0 {
        lemma_nl_free(s.drop_first());
    }
}

proof fn lemma_nl_single(c: char)
    ensures
        nl_count(seq![c]) == if c == '\n' {
            1nat
        } else {
            0nat
        },
{
    assert(nl_count(Seq::<char>::empty()) == 0);
    assert(seq![c].drop_first() =~= Seq::<char>::empty());
}

proof fn lemma_nl_esc(f: Seq<char>)
    requires
        newline_free(f),
    ensures
        nl_count(csv_esc(f)) == 0,
    decreases f.len(),
{
    if f.len() > 0 {
        lemma_nl_esc(f.drop_first());
        lemma_nl_concat(csv_esc_char(f[0]), csv_esc(f.drop_first()));
        assert(nl_count(csv_esc_char(f[0])) == 0) by {
            if f[0] == '"' {
                assert(seq!['"', '"'].drop_first() =~= seq!['"']);
                lemma_nl_single('"');
            } else {
                lemma_nl_single(f[0]);
            }
        }
    }
}

proof fn lemma_nl_field(f: Seq<char>)
    requires
        newline_free(f),
    ensures
        nl_count(csv_field(f)) == 0,
{
    lemma_nl_esc(f);
    lemma_nl_single('"');
    lemma_nl_concat(seq!['"'], csv_esc(f));
    lemma_nl_concat(seq!['"'] + csv_esc(f), seq!['"']);
}

proof fn lemma_nl_row(e: EntryView)
    requires
        entry_newline_free(e),
    ensures
        nl_count(csv_row(e)) == 1,
        csv_row(e).len() > 0,
        csv_row(e).last() == '\n',
{
    let a1 = csv_field(e.date);
    let a2 = a1 + seq![','];
    let a3 = a2 + csv_field(e.org);
    let a4 = a3 + seq![','];
    let a5 = a4 + e.hours;
    let a6 = a5 + seq![','];
    let a7 = a6 + csv_field(e.tasks);
    let a8 = a7 + seq![','];
    let a9 = a8 + csv_field(e.reflection);
    let a10 = a9 + seq![','];
    let a11 = a10 + csv_field(e.tags);
    let a12 = a11 + seq![','];
    let a13 = a12 + csv_field(e.created_at);
    let a14 = a13 + seq!['\n'];
    assert(csv_row(e) == a14);
    lemma_nl_single(',');
    lemma_nl_single('\n');
    lemma_nl_field(e.date);
    lemma_nl_field(e.org);
    lemma_nl_field(e.tasks);
    lemma_nl_field(e.reflection);
    lemma_nl_field(e.tags);
    lemma_nl_field(e.created_at);
    lemma_nl_free(e.hours);
    lemma_nl_concat(a1, seq![',']);
    lemma_nl_concat(a2, csv_field(e.org));
    lemma_nl_concat(a3, seq![',']);
    lemma_nl_concat(a4, e.hours);
    lemma_nl_concat(a5, seq![',']);
    lemma_nl_concat(a6, csv_field(e.tasks));
    lemma_nl_concat(a7, seq![',']);
    lemma_nl_concat(a8, csv_field(e.reflection));
    lemma_nl_concat(a9, seq![',']);
    lemma_nl_concat(a10, csv_field(e.tags));
    lemma_nl_concat(a11, seq![',']);
    lemma_nl_concat(a12, csv_field(e.created_at));
    lemma_nl_concat(a13, seq!['\n']);
    assert(a14.last() == '\n');
}

proof fn lemma_nl_rows(l: Seq<EntryView>)
    requires
        forall|k: int| 0 <= k < l.len() ==> entry_newline_free(#[trigger] l[k]),
    ensures
        nl_count(csv_rows(l)) == l.len(),
        l.len() > 0 ==> csv_rows(l).len() > 0 && csv_rows(l).last() == '\n',
    decreases l.len(),
{
    if l.len() > 0 {
        lemma_nl_row(l[0]);
        lemma_nl_rows(l.drop_first());
        lemma_nl_concat(csv_row(l[0]), csv_rows(l.drop_first()));
        if l.drop_first().len() == 0 {
            assert(csv_row(l[0]) + csv_rows(l.drop_first()) =~= csv_row(l[0]));
        }
    }
}

#[verifier::rlimit(100)]
proof fn lemma_nl_header()
    ensures
        nl_count(csv_header()) == 1,
        csv_header().len() > 0,
        csv_header().last() == '\n',
{
    reveal_strlit("date,");
    reveal_strlit("organization,");
    reveal_strlit("hours,");
    reveal_strlit("tasks,");
    reveal_strlit("reflection,");
    reveal_strlit("tags,");
    reveal_strlit("created_at");
    reveal_with_fuel(nl_count, 15);
    assert(nl_count("date,"@) == 0);
    assert(nl_count("organization,"@) == 0);
    assert(nl_count("hours,"@) == 0);
    assert(nl_count("tasks,"@) == 0);
    assert(nl_count("reflection,"@) == 0);
    assert(nl_count("tags,"@) == 0);
    assert(nl_count("created_at"@) == 0);
    lemma_nl_single('\n');
    let h1 = "date,"@ + "organization,"@;
    let h2 = h1 + "hours,"@;
    let h3 = h2 + "tasks,"@;
    let h4 = h3 + "reflection,"@;
    let h5 = h4 + "tags,"@;
    let h6 = h5 + "created_at"@;
    lemma_nl_concat("date,"@, "organization,"@);
    lemma_nl_concat(h1, "hours,"@);
    lemma_nl_concat(h2, "tasks,"@);
    lemma_nl_concat(h3, "reflection,"@);
    lemma_nl_concat(h4, "tags,"@);
    lemma_nl_concat(h5, "created_at"@);
    lemma_nl_concat(h6, seq!['\n']);
    assert(csv_header().last() == '\n');
}

/// With every exported field free of embedded newlines, the tabular
/// text consists of exactly one header line plus one line per entry:
/// it holds `1 + l.len()` newlines and the last character is one, so
/// each line, the data rows in list order, is newline-terminated.
pub proof fn lemma_tabular_line_count(l: Seq<EntryView>)
    requires
        forall|k: int| 0 <= k < l.len() ==> entry_newline_free(#[trigger] l[k]),
    ensures
        nl_count(tabular(l)) == 1 + l.len(),
        tabular(l).len() > 0,
        tabular(l).last() == '\n',
{
    lemma_nl_header();
    lemma_nl_rows(l);
    lemma_nl_concat(csv_header(), csv_rows(l));
    if l.len() == 0 {
        assert(csv_header() + csv_rows(l) =~= csv_header());
    }
}

fn csv_esc_from(v: &Vec<char>, i: usize) -> (r: String)
    requires
        i <= v@.len(),
    ensures
        r@ == csv_esc(v@.skip(i as int)),
    decreases v@.len() - i,
{
    if i == v.len() {
        proof {
            assert(v@.skip(i as int) =~= Seq::<char>::empty());
        }
        String::new()
    } else {
        proof {
            assert(v@.skip(i as int)[0] == v@[i as int]);
            assert(v@.skip(i as int).drop_first() =~= v@.skip(i + 1));
        }
        let mut r = String::new();
        if v[i] == '"' {
            r.push('"');
            r.push('"');
        } else {
            r.push(v[i]);
        }
        let tail = csv_esc_from(v, i + 1);
        r.append(tail.as_str());
        proof {
            assert(r@ =~= csv_esc_char(v@[i as int]) + csv_esc(v@.skip(i + 1)));
        }
        r
    }
}

fn push_csv_field(out: &mut String, f: &str)
    ensures
        final(out)@ == old(out)@ + csv_field(f@),
{
    let v = chars_of(f);
    let body = csv_esc_from(&v, 0);
    out.push('"');
    out.append(body.as_str());
    out.push('"');
    proof {
        assert(v@.skip(0) =~= f@);
        assert(out@ =~= old(out)@ + csv_field(f@));
    }
}

/// Renders one data row of the table.
pub fn csv_row_exec(e: &Entry) -> (r: String)
    ensures
        r@ == csv_row(e@),
{
    let mut out = String::new();
    push_csv_field(&mut out, e.date.as_str());
    out.push(',');
    push_csv_field(&mut out, e.org.as_str());
    out.push(',');
    out.append(e.hours.as_str());
    out.push(',');
    push_csv_field(&mut out, e.tasks.as_str());
    out.push(',');
    push_csv_field(&mut out, e.reflection.as_str());
    out.push(',');
    push_csv_field(&mut out, e.tags.as_str());
    out.push(',');
    push_csv_field(&mut out, e.created_at.as_str());
    out.push('\n');
    proof {
        assert(out@ =~= csv_row(e@));
    }
    out
}

fn csv_rows_from(entries: &Vec<Entry>, i: usize) -> (r: String)
    requires
        i <= entries@.len(),
    ensures
        r@ == csv_rows(entries.deep_view().skip(i as int)),
    decreases entries@.len() - i,
{
    if i == entries.len() {
        proof {
            assert(entries.deep_view().skip(i as int) =~= Seq::<EntryView>::empty());
        }
        String::new()
    } else {
        proof {
            assert(entries.deep_view().skip(i as int)[0] == entries.deep_view()[i as int]);
            assert(entries.deep_view()[i as int] == entries@[i as int]@);
            assert(entries.deep_view().skip(i as int).drop_first() =~= entries.deep_view().skip(
                i + 1,
            ));
        }
        let mut r = csv_row_exec(&entries[i]);
        let tail = csv_rows_from(entries, i + 1);
        r.append(tail.as_str());
        r
    }
}

/// Renders the whole entry list in the tabular export format.
pub fn to_tabular(entries: &Vec<Entry>) -> (r: String)
    ensures
        r@ == tabular(entries.deep_view()),
{
    let mut out = String::from_str("date,");
    out.append("organization,");
    out.append("hours,");
    out.append("tasks,");
    out.append("reflection,");
    out.append("tags,");
    out.append("created_at");
    out.push('\n');
    proof {
        assert(out@ =~= csv_header());
    }
    let rows = csv_rows_from(entries, 0);
    out.append(rows.as_str());
    proof {
        assert(entries.deep_view().skip(0) =~= entries.deep_view());
    }
    out
}

} // verus!
