//! The registry of named constants for one build step, and the plan of file
//! writes that commits it.
use vstd::prelude::*;
use crate::marshal::{accessor_text, byte_literal, create_constant_func, lemma_byte_literal_injective};

verus! {

/// Why a registry could not be committed.
#[derive(Debug, PartialEq, Eq, Structural)]
pub enum CommitError {
    /// No output directory was available, while at least one constant has to
    /// be written.
    Configuration,
}

/// The map that a list of (name, text) entries stands for; a later entry
/// under a name replaces an earlier one.
pub open spec fn entries_map(s: Seq<(Seq<char>, Seq<char>)>) -> Map<Seq<char>, Seq<char>>
    decreases s.len(),
{
    if s.len() == 0 {
        Map::empty()
    } else {
        entries_map(s.drop_last()).insert(s.last().0, s.last().1)
    }
}

/// No name occurs twice in the entries.
pub open spec fn names_unique(s: Seq<(Seq<char>, Seq<char>)>) -> bool {
    forall|i: int, j: int| 0 <= i < j < s.len() ==> s[i].0 != s[j].0
}

/// Path of the file that holds the accessor `name`, under `out_dir`.
pub open spec fn output_path(out_dir: Seq<char>, name: Seq<char>) -> Seq<char> {
    out_dir + "/cconst-"@ + name + ".rs"@
}

proof fn lemma_entries_map_dom(s: Seq<(Seq<char>, Seq<char>)>)
    ensures
        forall|k: Seq<char>|
            #[trigger] entries_map(s).contains_key(k) <==> exists|i: int|
                0 <= i < s.len() && s[i].0 == k,
    decreases s.len(),
{
    if s.len() > 0 {
        let front = s.drop_last();
        lemma_entries_map_dom(front);
        assert forall|k: Seq<char>| #[trigger] entries_map(s).contains_key(k) implies exists|i: int|
            0 <= i < s.len() && s[i].0 == k by {
            if k == s.last().0 {
                assert(s[s.len() - 1].0 == k);
            } else {
                assert(entries_map(front).contains_key(k));
                let i = choose|i: int| 0 <= i < front.len() && front[i].0 == k;
                assert(s[i].0 == k);
            }
        }
        assert forall|k: Seq<char>|
            (exists|i: int| 0 <= i < s.len() && s[i].0 == k) implies #[trigger] entries_map(
            s,
        ).contains_key(k) by {
            let i = choose|i: int| 0 <= i < s.len() && s[i].0 == k;
            if i < front.len() {
                assert(front[i].0 == k);
                assert(entries_map(front).contains_key(k));
            }
        }
    }
}

proof fn lemma_entries_map_value(s: Seq<(Seq<char>, Seq<char>)>)
    requires
        names_unique(s),
    ensures
        forall|i: int|
            0 <= i < s.len() ==> entries_map(s).contains_key(#[trigger] s[i].0) && entries_map(
                s,
            )[s[i].0] == s[i].1,
    decreases s.len(),
{
    if s.len() > 0 {
        let front = s.drop_last();
        assert(names_unique(front));
        lemma_entries_map_value(front);
        assert forall|i: int| 0 <= i < s.len() implies entries_map(s).contains_key(
            #[trigger] s[i].0,
        ) && entries_map(s)[s[i].0] == s[i].1 by {
            if i < front.len() {
                assert(front[i] == s[i]);
                assert(entries_map(front).contains_key(front[i].0));
                assert(entries_map(front)[front[i].0] == front[i].1);
                assert(s[i].0 != s.last().0);
            }
        }
    }
}

proof fn lemma_entries_map_len(s: Seq<(Seq<char>, Seq<char>)>)
    requires
        names_unique(s),
    ensures
        entries_map(s).len() == s.len(),
        entries_map(s).dom().finite(),
    decreases s.len(),
{
    if s.len() > 0 {
        let front = s.drop_last();
        assert(names_unique(front));
        lemma_entries_map_len(front);
        lemma_entries_map_dom(front);
        if entries_map(front).contains_key(s.last().0) {
            let i = choose|i: int| 0 <= i < front.len() && front[i].0 == s.last().0;
            assert(s[i].0 == s[s.len() - 1].0);
        }
    }
}

proof fn lemma_entries_map_update(s: Seq<(Seq<char>, Seq<char>)>, i: int, v: Seq<char>)
    requires
        names_unique(s),
        0 <= i < s.len(),
    ensures
        entries_map(s.update(i, (s[i].0, v))) == entries_map(s).insert(s[i].0, v),
    decreases s.len(),
{
    let t = s.update(i, (s[i].0, v));
    let front = s.drop_last();
    if i == s.len() - 1 {
        assert(t.drop_last() =~= front);
        assert(entries_map(t) =~= entries_map(s).insert(s[i].0, v));
    } else {
        assert(names_unique(front));
        lemma_entries_map_update(front, i, v);
        assert(t.drop_last() =~= front.update(i, (front[i].0, v)));
        assert(s[i].0 != s.last().0);
        assert(entries_map(t) =~= entries_map(s).insert(s[i].0, v));
    }
}

/// Distinct names have distinct output paths under one directory, so no two
/// constants of a registry share a file.
pub proof fn lemma_output_paths_distinct(out_dir: Seq<char>, a: Seq<char>, b: Seq<char>)
    requires
        a != b,
    ensures
        output_path(out_dir, a) != output_path(out_dir, b),
{
    let p = out_dir + "/cconst-"@;
    if output_path(out_dir, a) == output_path(out_dir, b) {
        assert(output_path(out_dir, a) =~= p + a + ".rs"@);
        assert(a.len() == b.len());
        assert(a =~= output_path(out_dir, a).subrange(p.len() as int, p.len() + a.len() as int));
        assert(b =~= output_path(out_dir, b).subrange(p.len() as int, p.len() + b.len() as int));
    }
}

/// Path of the file that holds the accessor `fname`, under `out_dir`.
pub fn build_output_path(out_dir: &str, fname: &str) -> (r: String)
    ensures
        r@ == output_path(out_dir@, fname@),
{
    let mut r = String::from_str(out_dir);
    r.append("/cconst-");
    r.append(fname);
    r.append(".rs");
    r
}

/// The named constants of one build step: for each symbolic name, the source
/// text of its accessor.
pub struct CopyConsts {
    entries: Vec<(String, String)>,
}

impl CopyConsts {
    /// The entries as (name, text) pairs, in the order they were first added.
    pub closed spec fn entries_view(&self) -> Seq<(Seq<char>, Seq<char>)> {
        self.entries@.map_values(|e: (String, String)| (e.0@, e.1@))
    }

    /// Each name has one entry.
    pub closed spec fn wf(&self) -> bool {
        names_unique(self.entries_view())
    }

    /// Creates a registry without constants.
    pub fn new() -> (r: CopyConsts)
        ensures
            r.wf(),
            r@ == Map::<Seq<char>, Seq<char>>::empty(),
    {
        let r = CopyConsts { entries: Vec::new() };
        assert(r.entries_view() =~= Seq::empty());
        r
    }

    /// Registers the value whose raw bytes are `val` under `fname`, as an
    /// accessor returning a `typename`. An earlier constant under the same
    /// name is replaced. The type name is not checked against the bytes.
    pub fn add_const(&mut self, fname: &str, typename: &str, val: &[u8])
        requires
            old(self).wf(),
        ensures
            final(self).wf(),
            final(self)@ == old(self)@.insert(
                fname@,
                accessor_text(fname@, typename@, byte_literal(val@)),
            ),
    {
        let text = create_constant_func(fname, typename, val);
        let name = String::from_str(fname);
        let ghost ev = self.entries_view();
        let mut i: usize = 0;
        while i < self.entries.len()
            invariant
                i <= self.entries@.len(),
                self.entries_view() == ev,
                ev == old(self).entries_view(),
                ev.len() == self.entries@.len(),
                names_unique(ev),
                name@ == fname@,
                text@ == accessor_text(fname@, typename@, byte_literal(val@)),
                forall|j: int| 0 <= j < i ==> ev[j].0 != name@,
            decreases self.entries@.len() - i,
        {
            if self.entries[i].0 == name {
                assert(ev[i as int].0 == fname@);
                self.entries[i] = (name, text);
                proof {
                    assert(self.entries_view() =~= ev.update(i as int, (ev[i as int].0, text@)));
                    lemma_entries_map_update(ev, i as int, text@);
                    assert(names_unique(self.entries_view()));
                }
                return;
            }
            i = i + 1;
        }
        self.entries.push((name, text));
        proof {
            let nv = self.entries_view();
            assert(nv =~= ev.push((fname@, text@)));
            assert(nv.drop_last() =~= ev);
        }
    }

    /// The files that committing this registry writes under `out_dir`, as
    /// (path, contents) pairs: one for each registered name, at that name's
    /// output path and holding its accessor text. Without a directory the
    /// commit fails, unless there is nothing to write.
    pub fn write_plan(&self, out_dir: Option<&str>) -> (r: Result<Vec<(String, String)>, CommitError>)
        requires
            self.wf(),
        ensures
            match out_dir {
                None => if self@.len() == 0 {
                    r matches Ok(plan) && plan@.len() == 0
                } else {
                    r == Err::<Vec<(String, String)>, CommitError>(CommitError::Configuration)
                },
                Some(d) => r matches Ok(plan) && plan_of(self@, d@, plan@),
            },
    {
        let ghost ev = self.entries_view();
        proof {
            lemma_entries_map_len(ev);
            lemma_entries_map_value(ev);
            lemma_entries_map_dom(ev);
        }
        let mut plan: Vec<(String, String)> = Vec::new();
        if self.entries.len() == 0 {
            return Ok(plan);
        }
        let d = match out_dir {
            Some(d) => d,
            None => {
                return Err(CommitError::Configuration);
            },
        };
        let mut i: usize = 0;
        while i < self.entries.len()
            invariant
                i <= self.entries@.len(),
                self.entries_view() == ev,
                ev.len() == self.entries@.len(),
                plan@.len() == i,
                forall|j: int|
                    0 <= j < i ==> (#[trigger] plan@[j]).0@ == output_path(d@, ev[j].0)
                        && plan@[j].1@ == ev[j].1,
            decreases self.entries@.len() - i,
        {
            let path = build_output_path(d, self.entries[i].0.as_str());
            let text = self.entries[i].1.clone();
            plan.push((path, text));
            i = i + 1;
        }
        let ghost m = entries_map(ev);
        assert forall|a: int, b: int| 0 <= a < b < plan@.len() implies (#[trigger] plan@[a]).0@
            != (#[trigger] plan@[b]).0@ by {
            lemma_output_paths_distinct(d@, ev[a].0, ev[b].0);
        }
        assert forall|j: int| 0 <= j < plan@.len() implies exists|k: Seq<char>|
            #[trigger] m.contains_key(k) && (#[trigger] plan@[j]).0@ == output_path(d@, k)
                && plan@[j].1@ == m[k] by {
            assert(m.contains_key(ev[j].0));
        }
        assert forall|k: Seq<char>| #[trigger] m.contains_key(k) implies exists|j: int|
            0 <= j < plan@.len() && (#[trigger] plan@[j]).0@ == output_path(d@, k) by {
            let j = choose|j: int| 0 <= j < ev.len() && ev[j].0 == k;
            assert(plan@[j].0@ == output_path(d@, k));
        }
        Ok(plan)
    }
}

impl View for CopyConsts {
    type V = Map<Seq<char>, Seq<char>>;

    /// For each registered name, the text of its accessor.
    closed spec fn view(&self) -> Map<Seq<char>, Seq<char>> {
        entries_map(self.entries_view())
    }
}

/// `plan` writes each constant of `consts` once, under `out_dir`: one
/// (path, contents) pair per name, at that name's output path, holding that
/// name's accessor text, and no other pair.
pub open spec fn plan_of(
    consts: Map<Seq<char>, Seq<char>>,
    out_dir: Seq<char>,
    plan: Seq<(String, String)>,
) -> bool {
    &&& plan.len() == consts.len()
    &&& forall|j: int|
        0 <= j < plan.len() ==> exists|k: Seq<char>|
            #[trigger] consts.contains_key(k) && (#[trigger] plan[j]).0@ == output_path(out_dir, k)
                && plan[j].1@ == consts[k]
    &&& forall|k: Seq<char>|
        #[trigger] consts.contains_key(k) ==> exists|j: int|
            0 <= j < plan.len() && (#[trigger] plan[j]).0@ == output_path(out_dir, k)
    &&& forall|i: int, j: int|
        0 <= i < j < plan.len() ==> (#[trigger] plan[i]).0@ != (#[trigger] plan[j]).0@
}

proof fn lemma_accessor_text_determines_literal(
    name: Seq<char>,
    ty: Seq<char>,
    a: Seq<char>,
    b: Seq<char>,
)
    requires
        accessor_text(name, ty, a) == accessor_text(name, ty, b),
    ensures
        a == b,
{
    let head = "#[inline]\nfn "@ + name + "() -> &'static "@ + ty + " {\n    const BUF: &[u8] = "@;
    let tail = ";\n    unsafe { &*(BUF.as_ptr() as *const "@ + ty + ") }\n}\n"@;
    assert(accessor_text(name, ty, a) =~= head + a + tail);
    assert(accessor_text(name, ty, b) =~= head + b + tail);
    assert(a.len() == b.len());
    assert(a =~= (head + a + tail).subrange(head.len() as int, head.len() + a.len() as int));
    assert(b =~= (head + b + tail).subrange(head.len() as int, head.len() + b.len() as int));
}

/// Registering two values under one name leaves only the second: the name
/// maps to the second value's accessor text, whatever the first one was, and
/// where the two values' bytes differ that text is not the first one's.
pub proof fn lemma_add_const_overwrites(
    consts: Map<Seq<char>, Seq<char>>,
    name: Seq<char>,
    ty1: Seq<char>,
    v1: Seq<u8>,
    ty2: Seq<char>,
    v2: Seq<u8>,
)
    ensures
        consts.insert(name, accessor_text(name, ty1, byte_literal(v1))).insert(
            name,
            accessor_text(name, ty2, byte_literal(v2)),
        ) == consts.insert(name, accessor_text(name, ty2, byte_literal(v2))),
        ty1 == ty2 && v1 != v2 ==> accessor_text(name, ty2, byte_literal(v2)) != accessor_text(
            name,
            ty1,
            byte_literal(v1),
        ),
{
    assert(consts.insert(name, accessor_text(name, ty1, byte_literal(v1))).insert(
        name,
        accessor_text(name, ty2, byte_literal(v2)),
    ) =~= consts.insert(name, accessor_text(name, ty2, byte_literal(v2))));
    if ty1 == ty2 && v1 != v2 && accessor_text(name, ty2, byte_literal(v2)) == accessor_text(
        name,
        ty1,
        byte_literal(v1),
    ) {
        lemma_accessor_text_determines_literal(name, ty1, byte_literal(v1), byte_literal(v2));
        lemma_byte_literal_injective(v1, v2);
    }
}

} // verus!
