use vstd::prelude::*;

use crate::sorted_map::{lemma_sorted_put_at, sorted_put};
use crate::text::{
    chars_eq, chars_lt, chars_of, ends_with, ends_with_chars, extend_chars, extend_str, find_char,
    first_index_of, lines, occurs_at, occurs_at_exec, seq_lt, split_lines, starts_with,
    starts_with_chars, string_of, sub_vec, trim, trim_range, trim_start, vecs_view,
};
use crate::xml::find_seq;

verus! {

pub open spec fn header_marker() -> Seq<char> {
    "=> Some(PromptContractSignatures"@
}

/// The `(contract, protocol)` version pair of a line that opens a prompt
/// signature entry: `("C", "P") => Some(PromptContractSignatures ...`.
pub open spec fn entry_header(line: Seq<char>) -> Option<(Seq<char>, Seq<char>)> {
    match find_seq(line, header_marker(), 0) {
        None => None,
        Some(mi) => {
            let tp = trim(line.take(mi));
            if !starts_with(tp, "(\""@) {
                None
            } else {
                let t2 = tp.skip(2);
                match first_index_of(t2, '"') {
                    None => None,
                    Some(ce) => {
                        let rest = trim_start(t2.skip(ce as int + 1));
                        if !(rest.len() > 0 && rest[0] == ',') {
                            None
                        } else {
                            let rest2 = trim_start(rest.skip(1));
                            if !(rest2.len() > 0 && rest2[0] == '"') {
                                None
                            } else {
                                let rest3 = rest2.skip(1);
                                match first_index_of(rest3, '"') {
                                    None => None,
                                    Some(pe) => Some((t2.take(ce as int), rest3.take(pe as int))),
                                }
                            }
                        }
                    },
                }
            }
        },
    }
}

/// The `(field, signature)` of a line `name_blake3: "value"`.
pub open spec fn signature_field(line: Seq<char>) -> Option<(Seq<char>, Seq<char>)> {
    match first_index_of(line, ':') {
        None => None,
        Some(fe) => {
            let field = trim(line.take(fe as int));
            if !ends_with(field, "_blake3"@) {
                None
            } else {
                let vp = trim_start(line.skip(fe as int + 1));
                if !(vp.len() > 0 && vp[0] == '"') {
                    None
                } else {
                    match first_index_of(vp.skip(1), '"') {
                        None => None,
                        Some(ve) => Some((field, vp.skip(1).take(ve as int))),
                    }
                }
            }
        },
    }
}

fn trim_start_from(v: &Vec<char>, i: usize) -> (r: usize)
    requires
        i <= v@.len(),
    ensures
        i <= r <= v@.len(),
        v@.skip(r as int) == trim_start(v@.skip(i as int)),
{
    let mut k = i;
    while k < v.len() && crate::text::is_whitespace(v[k])
        invariant
            i <= k <= v@.len(),
            trim_start(v@.skip(i as int)) == trim_start(v@.skip(k as int)),
        decreases v.len() - k,
    {
        assert(v@.skip(k as int)[0] == v@[k as int]);
        assert(v@.skip(k as int).drop_first() =~= v@.skip(k + 1));
        k = k + 1;
    }
    if k < v.len() {
        assert(v@.skip(k as int)[0] == v@[k as int]);
    } else {
        assert(v@.skip(k as int).len() == 0);
    }
    k
}

fn find_seq_from(v: &Vec<char>, p: &Vec<char>, i: usize) -> (r: Option<usize>)
    ensures
        match r {
            Some(k) => find_seq(v@, p@, i as int) == Some(k as int) && k <= v@.len(),
            None => find_seq(v@, p@, i as int) is None,
        },
{
    if i > v.len() {
        return None;
    }
    let mut k = i;
    while k < v.len()
        invariant
            i <= k <= v@.len(),
            find_seq(v@, p@, i as int) == find_seq(v@, p@, k as int),
        decreases v.len() - k,
    {
        if occurs_at_exec(v, p, k) {
            return Some(k);
        }
        k = k + 1;
    }
    if occurs_at_exec(v, p, k) {
        return Some(k);
    }
    assert(find_seq(v@, p@, k + 1) is None);
    None
}

pub fn parse_prompt_signature_entry_header(line: &Vec<char>) -> (r: Option<(Vec<char>, Vec<char>)>)
    ensures
        match r {
            Some((c, p)) => entry_header(line@) == Some((c@, p@)),
            None => entry_header(line@) is None,
        },
{
    let marker = chars_of("=> Some(PromptContractSignatures");
    let mi = match find_seq_from(line, &marker, 0) {
        Some(m) => m,
        None => {
            return None;
        },
    };
    let (a, b) = trim_range(line, 0, mi);
    assert(line@.take(mi as int) =~= line@.subrange(0, mi as int));
    let tp = sub_vec(line, a, b);
    let open = chars_of("(\"");
    proof {
        reveal_strlit("(\"");
    }
    if !starts_with_chars(&tp, &open) {
        return None;
    }
    let t2 = sub_vec(&tp, 2, tp.len());
    assert(t2@ =~= tp@.skip(2));
    let found = find_char(&t2, '"', 0);
    assert(t2@.skip(0) =~= t2@);
    let ce = match found {
        Some(c) => c,
        None => {
            return None;
        },
    };
    let contract = sub_vec(&t2, 0, ce);
    let r1 = trim_start_from(&t2, ce + 1);
    if !(r1 < t2.len() && t2[r1] == ',') {
        if r1 < t2.len() {
            assert(t2@.skip(r1 as int)[0] == t2@[r1 as int]);
        }
        return None;
    }
    assert(t2@.skip(r1 as int)[0] == t2@[r1 as int]);
    assert(t2@.skip(r1 as int).skip(1) =~= t2@.skip(r1 + 1));
    let r2 = trim_start_from(&t2, r1 + 1);
    if !(r2 < t2.len() && t2[r2] == '"') {
        if r2 < t2.len() {
            assert(t2@.skip(r2 as int)[0] == t2@[r2 as int]);
        }
        return None;
    }
    assert(t2@.skip(r2 as int)[0] == t2@[r2 as int]);
    let rest3 = sub_vec(&t2, r2 + 1, t2.len());
    assert(rest3@ =~= t2@.skip(r2 as int).skip(1));
    let found2 = find_char(&rest3, '"', 0);
    assert(rest3@.skip(0) =~= rest3@);
    match found2 {
        Some(pe) => {
            let protocol = sub_vec(&rest3, 0, pe);
            assert(contract@ =~= t2@.take(ce as int));
            assert(protocol@ =~= rest3@.take(pe as int));
            Some((contract, protocol))
        },
        None => None,
    }
}

pub fn parse_prompt_signature_field(line: &Vec<char>) -> (r: Option<(Vec<char>, Vec<char>)>)
    ensures
        match r {
            Some((f, v)) => signature_field(line@) == Some((f@, v@)),
            None => signature_field(line@) is None,
        },
{
    let found = find_char(line, ':', 0);
    assert(line@.skip(0) =~= line@);
    let fe = match found {
        Some(f) => f,
        None => {
            return None;
        },
    };
    let (a, b) = trim_range(line, 0, fe);
    assert(line@.take(fe as int) =~= line@.subrange(0, fe as int));
    let field = sub_vec(line, a, b);
    if !ends_with_chars(&field, &chars_of("_blake3")) {
        return None;
    }
    let n = line.len();
    let v0 = trim_start_from(line, fe + 1);
    if !(v0 < n && line[v0] == '"') {
        if v0 < n {
            assert(line@.skip(v0 as int)[0] == line@[v0 as int]);
        }
        return None;
    }
    assert(line@.skip(v0 as int)[0] == line@[v0 as int]);
    let vp = sub_vec(line, v0 + 1, n);
    assert(vp@ =~= line@.skip(v0 as int).skip(1));
    let found2 = find_char(&vp, '"', 0);
    assert(vp@.skip(0) =~= vp@);
    match found2 {
        Some(ve) => {
            let value = sub_vec(&vp, 0, ve);
            assert(value@ =~= vp@.take(ve as int));
            Some((field, value))
        },
        None => None,
    }
}

// ---------------------------------------------------------------------------
// The signature policy table
// ---------------------------------------------------------------------------

/// A `(contract, protocol)` version pair.
pub type VersionKey = (Seq<char>, Seq<char>);

/// The signatures of one version pair, by field, in field order.
pub type FieldList = Seq<(Seq<char>, Seq<char>)>;

/// Where a scan of the policy source stands.
pub struct PolicyScan {
    pub entries: Seq<(VersionKey, FieldList)>,
    pub current: Option<VersionKey>,
    pub fields: FieldList,
    pub saw_entry: bool,
}

pub open spec fn has_version(entries: Seq<(VersionKey, FieldList)>, key: VersionKey) -> bool {
    exists|i: int| 0 <= i < entries.len() && #[trigger] entries[i].0 == key
}

/// One line of the scan: a header opens an entry (an open one is an error);
/// inside an entry a signature field is recorded (a repeated field keeps
/// the last value) and a line starting `})` closes it, which needs at least
/// one field and a version pair not seen before; other lines are skipped.
pub open spec fn policy_step(st: PolicyScan, line: Seq<char>) -> Result<PolicyScan, Seq<char>> {
    let t = trim(line);
    match entry_header(t) {
        Some(key) => if st.current is Some {
            Err("prompt_signature_policy_nested_entry_detected"@)
        } else {
            Ok(PolicyScan { entries: st.entries, current: Some(key), fields: Seq::empty(), saw_entry: true })
        },
        None => match st.current {
            None => Ok(st),
            Some(key) => match signature_field(t) {
                Some((f, v)) => Ok(
                    PolicyScan {
                        entries: st.entries,
                        current: st.current,
                        fields: sorted_put(st.fields, f, v),
                        saw_entry: st.saw_entry,
                    },
                ),
                None => if starts_with(t, "})"@) {
                    if st.fields.len() == 0 {
                        Err("prompt_signature_policy_entry_missing_signatures:"@ + key.0 + "/"@ + key.1)
                    } else if has_version(st.entries, key) {
                        Err("prompt_signature_policy_duplicate_version_tuple"@)
                    } else {
                        Ok(
                            PolicyScan {
                                entries: st.entries.push((key, st.fields)),
                                current: None,
                                fields: Seq::empty(),
                                saw_entry: st.saw_entry,
                            },
                        )
                    }
                } else {
                    Ok(st)
                },
            },
        },
    }
}

/// The scan over the first `n` lines.
pub open spec fn policy_scan(ls: Seq<Seq<char>>, n: int) -> Result<PolicyScan, Seq<char>>
    decreases n,
{
    if n <= 0 {
        Ok(PolicyScan { entries: Seq::empty(), current: None, fields: Seq::empty(), saw_entry: false })
    } else {
        match policy_scan(ls, n - 1) {
            Err(e) => Err(e),
            Ok(st) => policy_step(st, ls[n - 1]),
        }
    }
}

proof fn lemma_scan_error_sticks(ls: Seq<Seq<char>>, k: int, n: int, e: Seq<char>)
    requires
        0 <= k <= n,
        policy_scan(ls, k) == Err::<PolicyScan, Seq<char>>(e),
    ensures
        policy_scan(ls, n) == Err::<PolicyScan, Seq<char>>(e),
    decreases n - k,
{
    if n > k {
        lemma_scan_error_sticks(ls, k, n - 1, e);
    }
}

/// The policy table of a source text: every entry closed and at least one.
pub open spec fn policy_of(source: Seq<char>) -> Result<Seq<(VersionKey, FieldList)>, Seq<char>> {
    let ls = lines(source);
    match policy_scan(ls, ls.len() as int) {
        Err(e) => Err(e),
        Ok(st) => if st.current is Some {
            Err("prompt_signature_policy_entry_not_closed"@)
        } else if !st.saw_entry || st.entries.len() == 0 {
            Err("prompt_signature_policy_entries_not_found"@)
        } else {
            Ok(st.entries)
        },
    }
}

/// The signatures of one version pair.
pub struct SignatureFields {
    pub fields: Vec<(String, String)>,
}

/// A parsed signature policy table.
pub struct PromptSignaturePolicy {
    pub entries: Vec<((String, String), SignatureFields)>,
}

pub open spec fn fields_view(v: Seq<(String, String)>) -> FieldList {
    v.map_values(|p: (String, String)| (p.0@, p.1@))
}

pub open spec fn entries_view(v: Seq<((String, String), SignatureFields)>) -> Seq<(VersionKey, FieldList)> {
    v.map_values(
        |e: ((String, String), SignatureFields)| ((e.0.0@, e.0.1@), fields_view(e.1.fields@)),
    )
}

impl PromptSignaturePolicy {
    pub open spec fn view(&self) -> Seq<(VersionKey, FieldList)> {
        entries_view(self.entries@)
    }
}

fn put_field(fields: &mut Vec<(String, String)>, f: Vec<char>, v: Vec<char>)
    ensures
        fields_view(final(fields)@) == sorted_put(fields_view(old(fields)@), f@, v@),
{
    let ghost s = fields_view(fields@);
    let mut p: usize = 0;
    while p < fields.len() && chars_lt(&chars_of(fields[p].0.as_str()), &f)
        invariant
            p <= fields@.len(),
            s == fields_view(fields@),
            forall|i: int| 0 <= i < p ==> seq_lt(#[trigger] s[i].0, f@),
        decreases fields.len() - p,
    {
        p = p + 1;
    }
    proof {
        lemma_sorted_put_at(s, f@, v@, p as int);
    }
    if p < fields.len() && chars_eq(&chars_of(fields[p].0.as_str()), &f) {
        fields.set(p, (string_of(&f), string_of(&v)));
        assert(fields_view(fields@) =~= s.update(p as int, (f@, v@)));
    } else {
        fields.insert(p, (string_of(&f), string_of(&v)));
        assert(fields_view(fields@) =~= s.insert(p as int, (f@, v@)));
    }
}

fn same_fields(a: &SignatureFields, b: &SignatureFields) -> (r: bool)
    ensures
        r == (fields_view(a.fields@) == fields_view(b.fields@)),
{
    if a.fields.len() != b.fields.len() {
        assert(fields_view(a.fields@).len() != fields_view(b.fields@).len());
        return false;
    }
    let mut i: usize = 0;
    while i < a.fields.len()
        invariant
            i <= a.fields@.len(),
            a.fields@.len() == b.fields@.len(),
            forall|k: int| 0 <= k < i ==> fields_view(a.fields@)[k] == fields_view(b.fields@)[k],
        decreases a.fields.len() - i,
    {
        let x = &a.fields[i];
        let y = &b.fields[i];
        if !chars_eq(&chars_of(x.0.as_str()), &chars_of(y.0.as_str())) || !chars_eq(
            &chars_of(x.1.as_str()),
            &chars_of(y.1.as_str()),
        ) {
            assert(fields_view(a.fields@)[i as int] != fields_view(b.fields@)[i as int]);
            return false;
        }
        i = i + 1;
    }
    assert(fields_view(a.fields@) =~= fields_view(b.fields@));
    true
}

fn find_version(entries: &Vec<((String, String), SignatureFields)>, c: &Vec<char>, p: &Vec<char>) -> (r: Option<usize>)
    ensures
        match r {
            Some(i) => i < entries@.len() && entries_view(entries@)[i as int].0 == (c@, p@),
            None => !has_version(entries_view(entries@), (c@, p@)),
        },
{
    let mut i: usize = 0;
    while i < entries.len()
        invariant
            i <= entries@.len(),
            forall|k: int| 0 <= k < i ==> entries_view(entries@)[k].0 != (c@, p@),
        decreases entries.len() - i,
    {
        let e = &entries[i];
        if chars_eq(&chars_of(e.0.0.as_str()), c) && chars_eq(&chars_of(e.0.1.as_str()), p) {
            assert(entries_view(entries@)[i as int].0 == (c@, p@));
            return Some(i);
        }
        assert(entries_view(entries@)[i as int].0 != (c@, p@));
        i = i + 1;
    }
    None
}

pub open spec fn scan_matches(
    st: PolicyScan,
    entries: Seq<((String, String), SignatureFields)>,
    current: Option<(Vec<char>, Vec<char>)>,
    fields: Seq<(String, String)>,
    saw: bool,
) -> bool {
    &&& st.entries == entries_view(entries)
    &&& st.current == match current {
        Some((c, p)) => Some((c@, p@)),
        None => None::<VersionKey>,
    }
    &&& st.fields == fields_view(fields)
    &&& st.saw_entry == saw
}

/// Reads the prompt signature policy table out of a source file.
pub fn parse_prompt_signature_policy_map(source: &str) -> (r: Result<PromptSignaturePolicy, String>)
    ensures
        match r {
            Ok(policy) => policy_of(source@) == Ok::<Seq<(VersionKey, FieldList)>, Seq<char>>(
                policy.view(),
            ),
            Err(m) => policy_of(source@) == Err::<Seq<(VersionKey, FieldList)>, Seq<char>>(m@),
        },
{
    let v = chars_of(source);
    let ls = split_lines(&v);
    let ghost lv = vecs_view(ls@);
    let mut entries: Vec<((String, String), SignatureFields)> = Vec::new();
    let mut current: Option<(Vec<char>, Vec<char>)> = None;
    let mut fields: Vec<(String, String)> = Vec::new();
    let mut saw = false;
    let close = chars_of("})");
    let mut i: usize = 0;
    assert(entries_view(entries@) =~= Seq::<(VersionKey, FieldList)>::empty());
    assert(fields_view(fields@) =~= Seq::<(Seq<char>, Seq<char>)>::empty());
    while i < ls.len()
        invariant
            i <= ls@.len(),
            lv == vecs_view(ls@),
            lv == lines(source@),
            close@ == "})"@,
            policy_scan(lv, i as int) matches Ok(st) && scan_matches(st, entries@, current, fields@, saw),
        decreases ls.len() - i,
    {
        let ghost st = policy_scan(lv, i as int)->Ok_0;
        assert(lv[i as int] == ls@[i as int]@);
        let (a, b) = trim_range(&ls[i], 0, ls[i].len());
        assert(ls@[i as int]@.subrange(0, ls@[i as int]@.len() as int) =~= ls@[i as int]@);
        let t = sub_vec(&ls[i], a, b);
        match parse_prompt_signature_entry_header(&t) {
            Some((c, p)) => {
                saw = true;
                if current.is_some() {
                    let m = string_of(&chars_of("prompt_signature_policy_nested_entry_detected"));
                    proof {
                        lemma_scan_error_sticks(lv, i + 1, lv.len() as int, m@);
                    }
                    return Err(m);
                }
                current = Some((c, p));
                fields = Vec::new();
                assert(fields_view(fields@) =~= Seq::<(Seq<char>, Seq<char>)>::empty());
            },
            None => {
                match current {
                    None => {},
                    Some((c, p)) => {
                        match parse_prompt_signature_field(&t) {
                            Some((f, val)) => {
                                put_field(&mut fields, f, val);
                                current = Some((c, p));
                            },
                            None => {
                                if starts_with_chars(&t, &close) {
                                    if fields.len() == 0 {
                                        let mut m = chars_of(
                                            "prompt_signature_policy_entry_missing_signatures:",
                                        );
                                        extend_chars(&mut m, &c);
                                        extend_str(&mut m, "/");
                                        extend_chars(&mut m, &p);
                                        let ms = string_of(&m);
                                        proof {
                                            lemma_scan_error_sticks(lv, i + 1, lv.len() as int, ms@);
                                        }
                                        return Err(ms);
                                    }
                                    if find_version(&entries, &c, &p).is_some() {
                                        let ms = string_of(
                                            &chars_of("prompt_signature_policy_duplicate_version_tuple"),
                                        );
                                        proof {
                                            lemma_scan_error_sticks(lv, i + 1, lv.len() as int, ms@);
                                        }
                                        return Err(ms);
                                    }
                                    let ghost before = entries_view(entries@);
                                    let mut taken: Vec<(String, String)> = Vec::new();
                                    std::mem::swap(&mut taken, &mut fields);
                                    entries.push(
                                        ((string_of(&c), string_of(&p)), SignatureFields { fields: taken }),
                                    );
                                    assert(entries_view(entries@) =~= before.push(
                                        ((c@, p@), st.fields),
                                    ));
                                    assert(fields_view(fields@) =~= Seq::<(Seq<char>, Seq<char>)>::empty());
                                    current = None;
                                } else {
                                    current = Some((c, p));
                                }
                            },
                        }
                    },
                }
            },
        }
        i = i + 1;
    }
    assert(lv.len() == ls@.len());
    if current.is_some() {
        return Err(string_of(&chars_of("prompt_signature_policy_entry_not_closed")));
    }
    if !saw || entries.len() == 0 {
        return Err(string_of(&chars_of("prompt_signature_policy_entries_not_found")));
    }
    Ok(PromptSignaturePolicy { entries })
}

/// Whether some version pair present in both tables has different
/// signatures in each: a signature change that should have come with a
/// version bump.
pub open spec fn changed_without_bump(
    previous: Seq<(VersionKey, FieldList)>,
    current: Seq<(VersionKey, FieldList)>,
) -> bool {
    exists|i: int, j: int|
        0 <= i < current.len() && 0 <= j < previous.len() && #[trigger] previous[j].0
            == #[trigger] current[i].0 && (forall|k: int| 0 <= k < j ==> previous[k].0 != current[i].0)
            && previous[j].1 != current[i].1
}

pub fn prompt_contract_signature_changed_without_version_bump(
    previous: &PromptSignaturePolicy,
    current: &PromptSignaturePolicy,
) -> (r: bool)
    ensures
        r == changed_without_bump(previous.view(), current.view()),
{
    let ghost pv = previous.view();
    let ghost cv = current.view();
    let mut i: usize = 0;
    while i < current.entries.len()
        invariant
            i <= current.entries@.len(),
            pv == previous.view(),
            cv == current.view(),
            forall|a: int, b: int|
                0 <= a < i && 0 <= b < pv.len() && #[trigger] pv[b].0 == #[trigger] cv[a].0 && (forall|
                    k: int,
                | 0 <= k < b ==> pv[k].0 != cv[a].0) ==> pv[b].1 == cv[a].1,
        decreases current.entries.len() - i,
    {
        let e = &current.entries[i];
        let c = chars_of(e.0.0.as_str());
        let p = chars_of(e.0.1.as_str());
        assert(cv[i as int].0 == (c@, p@));
        match find_first_version(&previous.entries, &c, &p) {
            Some(j) => {
                if !same_fields(&previous.entries[j].1, &e.1) {
                    assert(pv[j as int].1 != cv[i as int].1);
                    return true;
                }
                assert(pv[j as int].1 == cv[i as int].1);
                assert forall|b: int|
                    0 <= b < pv.len() && #[trigger] pv[b].0 == cv[i as int].0 && (forall|k: int|
                        0 <= k < b ==> pv[k].0 != cv[i as int].0) implies pv[b].1 == cv[i as int].1 by {
                    if b < j {
                    } else if b > j {
                        assert(pv[j as int].0 != cv[i as int].0);
                    }
                }
            },
            None => {},
        }
        i = i + 1;
    }
    false
}

fn find_first_version(entries: &Vec<((String, String), SignatureFields)>, c: &Vec<char>, p: &Vec<char>) -> (r: Option<usize>)
    ensures
        match r {
            Some(j) => j < entries@.len() && entries_view(entries@)[j as int].0 == (c@, p@) && forall|
                k: int,
            | 0 <= k < j ==> entries_view(entries@)[k].0 != (c@, p@),
            None => forall|k: int| 0 <= k < entries@.len() ==> entries_view(entries@)[k].0 != (c@, p@),
        },
{
    let mut i: usize = 0;
    while i < entries.len()
        invariant
            i <= entries@.len(),
            forall|k: int| 0 <= k < i ==> entries_view(entries@)[k].0 != (c@, p@),
        decreases entries.len() - i,
    {
        let e = &entries[i];
        if chars_eq(&chars_of(e.0.0.as_str()), c) && chars_eq(&chars_of(e.0.1.as_str()), p) {
            assert(entries_view(entries@)[i as int].0 == (c@, p@));
            return Some(i);
        }
        assert(entries_view(entries@)[i as int].0 != (c@, p@));
        i = i + 1;
    }
    None
}

} // verus!
