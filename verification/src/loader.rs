//! Assembly of the immutable `GameDefinition` from plain content values.
//!
//! Reading and decoding the content directory is I/O and lives outside the
//! library; it hands over one `ClassContent` per class directory (in sorted
//! order), the common skills and effects, and the maps (in sorted order).
//! `build_definition` mints every id and builds both cross-reference tables,
//! so the resulting catalog is a function of the input sequences alone.

use vstd::prelude::*;
use crate::error::ContentError;
use crate::game::{class_allows, Class, ClassContent, Effect, GameDefinition, GameMap, Skill};
use crate::ids::{copy_ids, Id, IdMapBuilder};

verus! {

/// The skills of all class directories, in directory order.
pub open spec fn flat_skills(entries: Seq<ClassContent>) -> Seq<Skill>
    decreases entries.len(),
{
    if entries.len() == 0 {
        Seq::empty()
    } else {
        flat_skills(entries.drop_last()) + entries.last().skills@
    }
}

/// The effects of all class directories, in directory order.
pub open spec fn flat_effects(entries: Seq<ClassContent>) -> Seq<Effect>
    decreases entries.len(),
{
    if entries.len() == 0 {
        Seq::empty()
    } else {
        flat_effects(entries.drop_last()) + entries.last().effects@
    }
}

/// The id of the first skill minted for class `c`.
pub open spec fn skill_base(entries: Seq<ClassContent>, c: int) -> int {
    flat_skills(entries.subrange(0, c)).len() as int
}

pub proof fn lemma_flat_skills_snoc(entries: Seq<ClassContent>, i: int)
    requires
        0 <= i < entries.len(),
    ensures
        flat_skills(entries.subrange(0, i + 1)) == flat_skills(entries.subrange(0, i))
            + entries[i].skills@,
{
    let s = entries.subrange(0, i + 1);
    assert(s.drop_last() =~= entries.subrange(0, i));
    assert(s.last() == entries[i]);
}

pub proof fn lemma_flat_effects_snoc(entries: Seq<ClassContent>, i: int)
    requires
        0 <= i < entries.len(),
    ensures
        flat_effects(entries.subrange(0, i + 1)) == flat_effects(entries.subrange(0, i))
            + entries[i].effects@,
{
    let s = entries.subrange(0, i + 1);
    assert(s.drop_last() =~= entries.subrange(0, i));
    assert(s.last() == entries[i]);
}

/// The skills minted for class `c` lie below the total count of
/// class-directory skills.
pub proof fn lemma_skill_base_le(entries: Seq<ClassContent>, c: int)
    requires
        0 <= c <= entries.len(),
    ensures
        c < entries.len() ==> skill_base(entries, c) + entries[c].skills@.len() <= flat_skills(
            entries,
        ).len(),
        skill_base(entries, c) <= flat_skills(entries).len(),
    decreases entries.len() - c,
{
    if c == entries.len() {
        assert(entries.subrange(0, c) =~= entries);
    } else {
        lemma_flat_skills_snoc(entries, c);
        lemma_skill_base_le(entries, c + 1);
    }
}

/// `skill_base` grows with the class id: the run of class `c` ends before
/// the run of any later class begins.
pub proof fn lemma_skill_base_mono(entries: Seq<ClassContent>, c: int, d: int)
    requires
        0 <= c < d <= entries.len(),
    ensures
        skill_base(entries, c) + entries[c].skills@.len() <= skill_base(entries, d),
    decreases d - c,
{
    lemma_flat_skills_snoc(entries, c);
    if c + 1 < d {
        lemma_skill_base_mono(entries, c + 1, d);
    }
}

/// Every index into the flattened class-directory skills falls into the run
/// of exactly one class.
pub proof fn lemma_flat_index_decompose(entries: Seq<ClassContent>, s: int)
    requires
        0 <= s < flat_skills(entries).len(),
    ensures
        exists|c: int, j: int|
            0 <= c < entries.len() && 0 <= j < entries[c].skills@.len() && s == #[trigger] (
            skill_base(entries, c) + j),
    decreases entries.len(),
{
    let n = entries.len() as int;
    let prefix = entries.drop_last();
    if s < flat_skills(prefix).len() {
        lemma_flat_index_decompose(prefix, s);
        let (c, j): (int, int) = choose|c: int, j: int|
            0 <= c < prefix.len() && 0 <= j < prefix[c].skills@.len() && s == #[trigger] (
            skill_base(prefix, c) + j);
        assert(prefix.subrange(0, c) =~= entries.subrange(0, c));
        assert(prefix[c] == entries[c]);
        assert(s == skill_base(entries, c) + j);
    } else {
        let c = n - 1;
        assert(entries.subrange(0, c) =~= prefix);
        let j = s - skill_base(entries, c);
        assert(s == skill_base(entries, c) + j);
        assert(0 <= j < entries[c].skills@.len());
    }
}

/// Builds the frozen catalog from content values.
///
/// The result is pinned by the contract: classes, skills, effects and maps
/// keep their input order (class-directory skills first, common skills after
/// them), each class's allowed list holds its own skills followed by every
/// common skill, and each skill's user list holds exactly the classes that
/// may use it. Loading the same content therefore yields the same catalog.
pub fn build_definition(
    entries: Vec<ClassContent>,
    common_skills: Vec<Skill>,
    common_effects: Vec<Effect>,
    maps: Vec<GameMap>,
) -> (r: Result<GameDefinition, ContentError>)
    ensures
        r is Ok <==> (forall|m: int| 0 <= m < maps@.len() ==> (#[trigger] maps@[m]).spec_valid()),
        r matches Err(e) ==> e == ContentError::InvalidMap,
        r matches Ok(def) ==> def.wf(),
        r matches Ok(def) ==> def.classes@.len() == entries@.len() && (forall|c: int|
            0 <= c < entries@.len() ==> #[trigger] def.classes@[c] == entries@[c].class),
        r matches Ok(def) ==> def.skills@ == flat_skills(entries@) + common_skills@,
        r matches Ok(def) ==> def.effects@ == flat_effects(entries@) + common_effects@,
        r matches Ok(def) ==> def.maps@ == maps@,
        r matches Ok(def) ==> forall|c: int|
            0 <= c < entries@.len() ==> (#[trigger] def.class_to_skills@[c]@).len()
                == entries@[c].skills@.len() + common_skills@.len(),
        r matches Ok(def) ==> forall|c: int, j: int|
            0 <= c < entries@.len() && 0 <= j < entries@[c].skills@.len() ==> (
            #[trigger] def.class_to_skills@[c]@[j]).index == skill_base(entries@, c) + j,
        r matches Ok(def) ==> forall|c: int, k: int|
            0 <= c < entries@.len() && 0 <= k < common_skills@.len()
                ==> #[trigger] def.class_to_skills@[c]@[entries@[c].skills@.len() + k].index
                == flat_skills(entries@).len() + k,
        // every common skill stands in every class's allowed list
        r matches Ok(def) ==> forall|c: int, k: int|
            0 <= c < entries@.len() && 0 <= k < common_skills@.len() ==> #[trigger] class_allows(
                def,
                c,
                flat_skills(entries@).len() + k,
            ),
        r matches Ok(def) ==> forall|c: int, j: int|
            0 <= c < entries@.len() && 0 <= j < entries@[c].skills@.len() ==> (
            #[trigger] def.skill_to_classes@[skill_base(entries@, c) + j]@).len() == 1
                && def.skill_to_classes@[skill_base(entries@, c) + j]@[0].index == c,
        r matches Ok(def) ==> forall|k: int|
            0 <= k < common_skills@.len() ==> (#[trigger] def.skill_to_classes@[flat_skills(
                entries@,
            ).len() + k]@).len() == entries@.len(),
        r matches Ok(def) ==> forall|k: int, c: int|
            0 <= k < common_skills@.len() && 0 <= c < entries@.len()
                ==> #[trigger] def.skill_to_classes@[flat_skills(entries@).len() + k]@[c].index
                == c,
{
    let ghost ev = entries@;
    let ghost csv = common_skills@;
    let ghost cev = common_effects@;
    let ghost mv = maps@;

    let n_common = common_skills.len();

    let mut class_b: IdMapBuilder<Class> = IdMapBuilder::new();
    let mut skill_b: IdMapBuilder<Skill> = IdMapBuilder::new();
    let mut effect_b: IdMapBuilder<Effect> = IdMapBuilder::new();
    let mut stc: Vec<Vec<Id<Class>>> = Vec::new();
    let mut own_lens: Vec<usize> = Vec::new();

    let mut rest = entries;
    let ghost mut i: int = 0;
    proof {
        assert(rest@ =~= ev.subrange(0, ev.len() as int));
        assert(ev.subrange(0, 0) =~= Seq::<ClassContent>::empty());
    }
    while rest.len() > 0
        invariant
            0 <= i,
            i + rest@.len() == ev.len(),
            rest@ == ev.subrange(i, ev.len() as int),
            class_b@.len() == i,
            forall|c: int| 0 <= c < i ==> #[trigger] class_b@[c] == ev[c].class,
            skill_b@ == flat_skills(ev.subrange(0, i)),
            effect_b@ == flat_effects(ev.subrange(0, i)),
            own_lens@.len() == i,
            forall|c: int| 0 <= c < i ==> #[trigger] own_lens@[c] == ev[c].skills@.len(),
            stc@.len() == skill_b@.len(),
            forall|c: int, j: int|
                0 <= c < i && 0 <= j < ev[c].skills@.len() ==> (#[trigger] stc@[skill_base(ev, c)
                    + j]@).len() == 1 && stc@[skill_base(ev, c) + j]@[0].index == c,
        decreases rest@.len(),
    {
        let entry = rest.remove(0);
        proof {
            assert(entry == ev[i]);
            assert(rest@ =~= ev.subrange(i + 1, ev.len() as int));
        }
        let ClassContent { class, skills, effects } = entry;

        let mut eff = effects;
        let ghost mut je: int = 0;
        proof {
            assert(eff@ =~= ev[i].effects@.subrange(0, eff@.len() as int));
            assert(ev[i].effects@.subrange(0, 0) =~= Seq::<Effect>::empty());
        }
        while eff.len() > 0
            invariant
                0 <= i < ev.len(),
                0 <= je,
                je + eff@.len() == ev[i].effects@.len(),
                eff@ == ev[i].effects@.subrange(je, ev[i].effects@.len() as int),
                effect_b@ == flat_effects(ev.subrange(0, i)) + ev[i].effects@.subrange(0, je),
            decreases eff@.len(),
        {
            let e = eff.remove(0);
            proof {
                assert(e == ev[i].effects@[je]);
                assert(eff@ =~= ev[i].effects@.subrange(je + 1, ev[i].effects@.len() as int));
            }
            effect_b.add(e);
            proof {
                assert(effect_b@ =~= flat_effects(ev.subrange(0, i)) + ev[i].effects@.subrange(
                    0,
                    je + 1,
                ));
                je = je + 1;
            }
        }
        proof {
            assert(ev[i].effects@.subrange(0, ev[i].effects@.len() as int) =~= ev[i].effects@);
        }

        let class_id = class_b.add(class);
        own_lens.push(skills.len());

        let ghost base = skill_base(ev, i);
        proof {
            assert(base == skill_b@.len());
        }
        let mut sk = skills;
        let ghost mut js: int = 0;
        proof {
            assert(sk@ =~= ev[i].skills@.subrange(0, sk@.len() as int));
            assert(ev[i].skills@.subrange(0, 0) =~= Seq::<Skill>::empty());
        }
        while sk.len() > 0
            invariant
                0 <= i < ev.len(),
                class_id.index == i,
                base == skill_base(ev, i),
                0 <= js,
                js + sk@.len() == ev[i].skills@.len(),
                sk@ == ev[i].skills@.subrange(js, ev[i].skills@.len() as int),
                skill_b@ == flat_skills(ev.subrange(0, i)) + ev[i].skills@.subrange(0, js),
                stc@.len() == skill_b@.len(),
                forall|c: int, j: int|
                    0 <= c < i && 0 <= j < ev[c].skills@.len() ==> (#[trigger] stc@[skill_base(
                        ev,
                        c,
                    ) + j]@).len() == 1 && stc@[skill_base(ev, c) + j]@[0].index == c,
                forall|j: int|
                    0 <= j < js ==> (#[trigger] stc@[base + j]@).len() == 1 && stc@[base
                        + j]@[0].index == i,
            decreases sk@.len(),
        {
            let s = sk.remove(0);
            proof {
                assert(s == ev[i].skills@[js]);
                assert(sk@ =~= ev[i].skills@.subrange(js + 1, ev[i].skills@.len() as int));
            }
            skill_b.add(s);
            let mut row: Vec<Id<Class>> = Vec::new();
            row.push(class_id);
            stc.push(row);
            proof {
                assert(skill_b@ =~= flat_skills(ev.subrange(0, i)) + ev[i].skills@.subrange(
                    0,
                    js + 1,
                ));
                assert forall|c: int, j: int|
                    0 <= c < i && 0 <= j < ev[c].skills@.len() implies (#[trigger] stc@[skill_base(
                    ev,
                    c,
                ) + j]@).len() == 1 && stc@[skill_base(ev, c) + j]@[0].index == c by {
                    let sub = ev.subrange(0, i);
                    assert(sub.subrange(0, c) =~= ev.subrange(0, c));
                    assert(sub[c] == ev[c]);
                    lemma_skill_base_le(sub, c);
                }
                js = js + 1;
            }
        }
        proof {
            assert(ev[i].skills@.subrange(0, ev[i].skills@.len() as int) =~= ev[i].skills@);
            lemma_flat_skills_snoc(ev, i);
            lemma_flat_effects_snoc(ev, i);
            i = i + 1;
        }
    }
    proof {
        assert(ev.subrange(0, i) =~= ev);
    }

    let n_classes = own_lens.len();
    let ghost ff = flat_skills(ev).len() as int;
    let f_total = skill_b.len();

    // the user list every common skill gets: all classes, in id order
    let mut all_classes: Vec<Id<Class>> = Vec::new();
    let mut c0: usize = 0;
    while c0 < n_classes
        invariant
            c0 <= n_classes,
            all_classes@.len() == c0,
            forall|c: int| 0 <= c < c0 ==> (#[trigger] all_classes@[c]).index == c,
        decreases n_classes - c0,
    {
        all_classes.push(Id::new(c0));
        c0 = c0 + 1;
    }

    let mut cs = common_skills;
    let ghost mut k: int = 0;
    proof {
        assert(cs@ =~= csv.subrange(0, csv.len() as int));
        assert(csv.subrange(0, 0) =~= Seq::<Skill>::empty());
    }
    while cs.len() > 0
        invariant
            n_classes == ev.len(),
            ff == flat_skills(ev).len(),
            f_total == ff,
            0 <= k,
            k + cs@.len() == csv.len(),
            cs@ == csv.subrange(k, csv.len() as int),
            skill_b@ == flat_skills(ev) + csv.subrange(0, k),
            all_classes@.len() == n_classes,
            forall|c: int| 0 <= c < n_classes ==> (#[trigger] all_classes@[c]).index == c,
            stc@.len() == skill_b@.len(),
            forall|c: int, j: int|
                0 <= c < ev.len() && 0 <= j < ev[c].skills@.len() ==> (#[trigger] stc@[skill_base(
                    ev,
                    c,
                ) + j]@).len() == 1 && stc@[skill_base(ev, c) + j]@[0].index == c,
            forall|kk: int| 0 <= kk < k ==> (#[trigger] stc@[ff + kk]@).len() == n_classes,
            forall|kk: int, c: int|
                0 <= kk < k && 0 <= c < n_classes ==> (#[trigger] stc@[ff + kk]@[c]).index == c,
        decreases cs@.len(),
    {
        let s = cs.remove(0);
        proof {
            assert(s == csv[k]);
            assert(cs@ =~= csv.subrange(k + 1, csv.len() as int));
        }
        skill_b.add(s);
        let row = copy_ids(&all_classes);
        stc.push(row);
        proof {
            assert(skill_b@ =~= flat_skills(ev) + csv.subrange(0, k + 1));
            assert forall|c: int, j: int|
                0 <= c < ev.len() && 0 <= j < ev[c].skills@.len() implies (#[trigger] stc@[skill_base(
                ev,
                c,
            ) + j]@).len() == 1 && stc@[skill_base(ev, c) + j]@[0].index == c by {
                lemma_skill_base_le(ev, c);
            }
            k = k + 1;
        }
    }
    proof {
        assert(csv.subrange(0, csv.len() as int) =~= csv);
    }

    let mut ce = common_effects;
    let ghost mut ke: int = 0;
    proof {
        assert(ce@ =~= cev.subrange(0, cev.len() as int));
        assert(cev.subrange(0, 0) =~= Seq::<Effect>::empty());
    }
    while ce.len() > 0
        invariant
            0 <= ke,
            ke + ce@.len() == cev.len(),
            ce@ == cev.subrange(ke, cev.len() as int),
            effect_b@ == flat_effects(ev) + cev.subrange(0, ke),
        decreases ce@.len(),
    {
        let e = ce.remove(0);
        proof {
            assert(e == cev[ke]);
            assert(ce@ =~= cev.subrange(ke + 1, cev.len() as int));
        }
        effect_b.add(e);
        proof {
            assert(effect_b@ =~= flat_effects(ev) + cev.subrange(0, ke + 1));
            ke = ke + 1;
        }
    }
    proof {
        assert(cev.subrange(0, cev.len() as int) =~= cev);
    }

    // maps: validate them all, then freeze in input order
    let mut mi: usize = 0;
    while mi < maps.len()
        invariant
            mi <= maps@.len(),
            forall|m: int| 0 <= m < mi ==> (#[trigger] maps@[m]).spec_valid(),
        decreases maps@.len() - mi,
    {
        if !maps[mi].check_validity() {
            proof {
                assert(!maps@[mi as int].spec_valid());
                assert(!(forall|m: int|
                    0 <= m < maps@.len() ==> (#[trigger] maps@[m]).spec_valid()));
            }
            return Err(ContentError::InvalidMap);
        }
        mi = mi + 1;
    }

    let mut map_b: IdMapBuilder<GameMap> = IdMapBuilder::new();
    let mut ms = maps;
    let ghost mut km: int = 0;
    proof {
        assert(ms@ =~= mv.subrange(0, mv.len() as int));
        assert(mv.subrange(0, 0) =~= Seq::<GameMap>::empty());
    }
    while ms.len() > 0
        invariant
            0 <= km,
            km + ms@.len() == mv.len(),
            ms@ == mv.subrange(km, mv.len() as int),
            map_b@ == mv.subrange(0, km),
        decreases ms@.len(),
    {
        let m = ms.remove(0);
        proof {
            assert(m == mv[km]);
            assert(ms@ =~= mv.subrange(km + 1, mv.len() as int));
        }
        map_b.add(m);
        proof {
            assert(map_b@ =~= mv.subrange(0, km + 1));
            km = km + 1;
        }
    }
    proof {
        assert(mv.subrange(0, mv.len() as int) =~= mv);
    }

    // allowed lists: each class's own skills, then every common skill
    let s_total = skill_b.len();
    proof {
        assert(f_total + n_common == s_total);
    }
    let mut cts: Vec<Vec<Id<Skill>>> = Vec::new();
    let mut base: usize = 0;
    let mut c: usize = 0;
    proof {
        assert(ev.subrange(0, 0) =~= Seq::<ClassContent>::empty());
    }
    while c < n_classes
        invariant
            n_classes == ev.len(),
            ff == flat_skills(ev).len(),
            f_total == ff,
            f_total + n_common == s_total,
            n_common == csv.len(),
            own_lens@.len() == n_classes,
            forall|cc: int| 0 <= cc < n_classes ==> #[trigger] own_lens@[cc] == ev[cc].skills@.len(),
            c <= n_classes,
            base == skill_base(ev, c as int),
            cts@.len() == c,
            forall|cc: int|
                0 <= cc < c ==> (#[trigger] cts@[cc]@).len() == ev[cc].skills@.len() + csv.len(),
            forall|cc: int, j: int|
                0 <= cc < c && 0 <= j < ev[cc].skills@.len() ==> (#[trigger] cts@[cc]@[j]).index
                    == skill_base(ev, cc) + j,
            forall|cc: int, kk: int|
                0 <= cc < c && 0 <= kk < csv.len() ==> #[trigger] cts@[cc]@[ev[cc].skills@.len()
                    + kk].index == ff + kk,
        decreases n_classes - c,
    {
        proof {
            lemma_skill_base_le(ev, c as int);
        }
        let own = own_lens[c];
        let mut row: Vec<Id<Skill>> = Vec::new();
        let mut j: usize = 0;
        while j < own
            invariant
                own == ev[c as int].skills@.len(),
                c < ev.len(),
                base == skill_base(ev, c as int),
                base + own <= ff,
                ff == flat_skills(ev).len(),
                f_total == ff,
                j <= own,
                row@.len() == j,
                forall|jj: int|
                    0 <= jj < j ==> (#[trigger] row@[jj]).index == skill_base(ev, c as int) + jj,
            decreases own - j,
        {
            row.push(Id::new(base + j));
            j = j + 1;
        }
        let mut kk: usize = 0;
        while kk < n_common
            invariant
                own == ev[c as int].skills@.len(),
                c < ev.len(),
                base == skill_base(ev, c as int),
                ff == flat_skills(ev).len(),
                f_total == ff,
                f_total + n_common == s_total,
                n_common == csv.len(),
                kk <= n_common,
                row@.len() == own + kk,
                forall|jj: int|
                    0 <= jj < own ==> (#[trigger] row@[jj]).index == skill_base(ev, c as int) + jj,
                forall|k2: int| 0 <= k2 < kk ==> (#[trigger] row@[own + k2]).index == ff + k2,
            decreases n_common - kk,
        {
            row.push(Id::new(f_total + kk));
            kk = kk + 1;
        }
        cts.push(row);
        proof {
            lemma_flat_skills_snoc(ev, c as int);
        }
        base = base + own;
        c = c + 1;
    }

    let def = GameDefinition {
        classes: class_b.build(),
        skills: skill_b.build(),
        effects: effect_b.build(),
        maps: map_b.build(),
        class_to_skills: cts,
        skill_to_classes: stc,
    };

    proof {
        let n = ev.len() as int;
        let cn = csv.len() as int;
        let sn = def.skills@.len() as int;
        assert(sn == ff + cn);

        // ids held by the allowed lists resolve
        assert forall|cc: int, j: int|
            0 <= cc < n && 0 <= j < def.class_to_skills@[cc]@.len() implies (
        #[trigger] def.class_to_skills@[cc]@[j]).index < sn by {
            lemma_skill_base_le(ev, cc);
            if j < ev[cc].skills@.len() {
                assert(def.class_to_skills@[cc]@[j].index == skill_base(ev, cc) + j);
            } else {
                let kk = j - ev[cc].skills@.len();
                assert(def.class_to_skills@[cc]@[ev[cc].skills@.len() + kk].index == ff + kk);
            }
        }

        // the two tables are mutual inverses
        assert forall|cc: int, ss: int| 0 <= cc < n && 0 <= ss < sn && #[trigger] class_allows(
            def,
            cc,
            ss,
        ) implies #[trigger] crate::game::skill_used_by(def, ss, cc) by {
            let j = choose|j: int|
                0 <= j < def.class_to_skills@[cc]@.len() && (
                #[trigger] def.class_to_skills@[cc]@[j]).index == ss;
            lemma_skill_base_le(ev, cc);
            if j < ev[cc].skills@.len() {
                assert(ss == skill_base(ev, cc) + j);
                assert(def.skill_to_classes@[ss]@[0].index == cc);
            } else {
                let kk = j - ev[cc].skills@.len();
                assert(def.class_to_skills@[cc]@[ev[cc].skills@.len() + kk].index == ff + kk);
                assert(ss == ff + kk);
                assert(def.skill_to_classes@[ss]@[cc].index == cc);
            }
        }
        assert forall|cc: int, ss: int|
            0 <= cc < n && 0 <= ss < sn && #[trigger] crate::game::skill_used_by(
                def,
                ss,
                cc,
            ) implies #[trigger] class_allows(def, cc, ss) by {
            let j = choose|j: int|
                0 <= j < def.skill_to_classes@[ss]@.len() && (
                #[trigger] def.skill_to_classes@[ss]@[j]).index == cc;
            if ss < ff {
                lemma_flat_index_decompose(ev, ss);
                let (c2, j2): (int, int) = choose|c2: int, j2: int|
                    0 <= c2 < ev.len() && 0 <= j2 < ev[c2].skills@.len() && ss == #[trigger] (
                    skill_base(ev, c2) + j2);
                assert(def.skill_to_classes@[ss]@.len() == 1);
                assert(def.skill_to_classes@[ss]@[0].index == c2);
                assert(j == 0);
                assert(cc == c2);
                assert(def.class_to_skills@[cc]@[j2].index == ss);
            } else {
                let kk = ss - ff;
                assert(def.class_to_skills@[cc]@[ev[cc].skills@.len() + kk].index == ss);
            }
        }

        // every common skill stands in every class's allowed list
        assert forall|cc: int, kk: int| 0 <= cc < n && 0 <= kk < cn implies #[trigger] class_allows(
            def,
            cc,
            ff + kk,
        ) by {
            assert(def.class_to_skills@[cc]@[ev[cc].skills@.len() + kk].index == ff + kk);
        }

        // ids held by the user lists resolve
        assert forall|ss: int, j: int|
            0 <= ss < sn && 0 <= j < def.skill_to_classes@[ss]@.len() implies (
        #[trigger] def.skill_to_classes@[ss]@[j]).index < n by {
            if ss < ff {
                lemma_flat_index_decompose(ev, ss);
                let (c2, j2): (int, int) = choose|c2: int, j2: int|
                    0 <= c2 < ev.len() && 0 <= j2 < ev[c2].skills@.len() && ss == #[trigger] (
                    skill_base(ev, c2) + j2);
                assert(def.skill_to_classes@[ss]@[0].index == c2);
            } else {
                let kk = ss - ff;
                assert(def.skill_to_classes@[ff + kk]@.len() == n);
                assert(def.skill_to_classes@[ff + kk]@[j].index == j);
            }
        }
    }

    Ok(def)
}

} // verus!
