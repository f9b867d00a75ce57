use vstd::prelude::*;
use crate::types::Record;

verus! {

/// `s` with every match of `from` replaced by `to`, matches taken left to right
/// without overlap.
pub open spec fn replace_all(s: Seq<char>, from: Seq<char>, to: Seq<char>) -> Seq<char>
    decreases s.len(),
{
    if s.len() == 0 || from.len() == 0 {
        s
    } else if from.len() <= s.len() && s.subrange(0, from.len() as int) == from {
        to + replace_all(s.subrange(from.len() as int, s.len() as int), from, to)
    } else {
        seq![s[0]] + replace_all(s.drop_first(), from, to)
    }
}

/// The placeholder that stands for the field `key` in a template: `{key}`.
pub open spec fn placeholder_of(key: Seq<char>) -> Seq<char> {
    seq!['{'] + key + seq!['}']
}

/// The text of one record: each field's placeholder replaced by its value, in field order.
pub open spec fn render(template: Seq<char>, fields: Seq<(String, String)>) -> Seq<char>
    decreases fields.len(),
{
    if fields.len() == 0 {
        template
    } else {
        render(
            replace_all(template, placeholder_of(fields[0].0@), fields[0].1@),
            fields.drop_first(),
        )
    }
}

/// The texts of a page of records, in page order.
pub open spec fn rendered(template: Seq<char>, page: Seq<Record>) -> Seq<Seq<char>> {
    page.map_values(|r: Record| render(template, r@))
}

/// The views of a sequence of strings.
pub open spec fn texts(v: Seq<String>) -> Seq<Seq<char>> {
    v.map_values(|s: String| s@)
}

/// Relies on str::replace: every non-overlapping match of `from`, leftmost
/// first, is replaced by `to`.
#[verifier::external_body]
fn replace(s: &String, from: &String, to: &String) -> (r: String)
    requires
        from@.len() > 0,
    ensures
        r@ == replace_all(s@, from@, to@),
{
    s.replace(from.as_str(), to.as_str())
}

/// `{key}`.
pub fn placeholder(key: &String) -> (r: String)
    ensures
        r@ == placeholder_of(key@),
{
    let mut p = String::new();
    p.append("{");
    p.append(key.as_str());
    p.append("}");
    proof {
        reveal_strlit("{");
        reveal_strlit("}");
        assert(p@ =~= placeholder_of(key@));
    }
    p
}

/// Fills `template` with the fields of `record`.
pub fn render_record(template: &String, record: &Record) -> (r: String)
    ensures
        r@ == render(template@, record@),
{
    let n = record.len();
    let mut text = template.clone();
    let mut i: usize = 0;
    proof {
        assert(record@.subrange(0, n as int) =~= record@);
    }
    while i < n
        invariant
            n == record@.len(),
            i <= n,
            render(text@, record@.subrange(i as int, n as int)) == render(template@, record@),
        decreases n - i,
    {
        let p = placeholder(&record[i].0);
        proof {
            let rest = record@.subrange(i as int, n as int);
            assert(rest.drop_first() =~= record@.subrange(i + 1, n as int));
            assert(rest[0] == record@[i as int]);
        }
        text = replace(&text, &p, &record[i].1);
        i = i + 1;
    }
    proof {
        assert(record@.subrange(n as int, n as int) =~= Seq::<(String, String)>::empty());
    }
    text
}

/// Fills `template` with each record of `page`, in order.
pub fn render_page(template: &String, page: &Vec<Record>) -> (r: Vec<String>)
    ensures
        texts(r@) == rendered(template@, page@),
{
    let n = page.len();
    let mut out: Vec<String> = Vec::new();
    let mut i: usize = 0;
    while i < n
        invariant
            n == page@.len(),
            i <= n,
            texts(out@) == rendered(template@, page@.subrange(0, i as int)),
        decreases n - i,
    {
        let t = render_record(template, &page[i]);
        let ghost before = out@;
        out.push(t);
        proof {
            let pre = page@.subrange(0, i as int);
            let cur = page@.subrange(0, i + 1);
            assert(cur =~= pre.push(page@[i as int]));
            assert(out@ =~= before.push(t));
            assert(texts(out@) =~= texts(before).push(t@));
            assert(rendered(template@, cur) =~= rendered(template@, pre).push(render(template@, page@[i as int]@)));
            assert(texts(out@) =~= rendered(template@, page@.subrange(0, i + 1)));
        }
        i = i + 1;
    }
    proof {
        assert(page@.subrange(0, n as int) =~= page@);
    }
    out
}

} // verus!
