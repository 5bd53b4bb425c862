use vstd::prelude::*;
use vstd::set_lib::{lemma_int_range, lemma_len_subset, lemma_map_size, set_int_range};
use crate::text::{decimal, push_char, push_decimal, push_signed_decimal, sanitize_name, sanitized, signed_decimal};
use crate::types::{Combo, ComboView, texts, views};

verus! {

broadcast use vstd::seq_lib::group_seq_properties;

/// The names of a list of combos, in order.
pub open spec fn names(cs: Seq<Combo>) -> Seq<Seq<char>> {
    cs.map_values(|c: Combo| c.name@)
}

/// Whether some combo of the list carries exactly this name.
pub open spec fn name_taken(cs: Seq<Combo>, name: Seq<char>) -> bool {
    exists|k: int| 0 <= k < cs.len() && #[trigger] cs[k].name@ == name
}

/// The `i`-th name tried for a base: the base, an underscore, `i` in decimal.
pub open spec fn candidate(base: Seq<char>, i: nat) -> Seq<char> {
    base + seq!['_'] + decimal(i)
}

/// `i` is the smallest suffix whose candidate name is not taken.
pub open spec fn is_first_free(cs: Seq<Combo>, base: Seq<char>, i: nat) -> bool {
    &&& !name_taken(cs, candidate(base, i))
    &&& forall|k: nat| k < i ==> name_taken(cs, #[trigger] candidate(base, k))
}

/// The base name for a list of commands: that of the last command, or "combo"
/// for no command.
pub open spec fn base_name(commands: Seq<String>) -> Seq<char> {
    if commands.len() == 0 {
        "combo"@
    } else {
        sanitized(commands.last()@)
    }
}

/// The name given to a new combo that comes without one.
pub open spec fn auto_name(cs: Seq<Combo>, commands: Seq<String>) -> Seq<char> {
    let base = base_name(commands);
    candidate(base, choose|i: nat| is_first_free(cs, base, i))
}

/// The list after a combo with this name, these commands and this time has
/// been added at its end.
pub open spec fn added(cs: Seq<Combo>, name: Seq<char>, commands: Seq<String>, now: i64) -> Seq<ComboView> {
    views(cs).push(ComboView { name, commands, last_used: now })
}

/// The list without the combos of exactly this name.
pub open spec fn without_name(cs: Seq<Combo>, name: Seq<char>) -> Seq<Combo> {
    cs.filter(|c: Combo| c.name@ != name)
}

proof fn lemma_decimal_nonempty(n: nat)
    ensures
        decimal(n).len() >= 1,
        n >= 10 ==> decimal(n).len() >= 2,
    decreases n,
{
    if n >= 10 {
        lemma_decimal_nonempty(n / 10);
    }
}

proof fn lemma_decimal_injective(a: nat, b: nat)
    requires
        decimal(a) == decimal(b),
    ensures
        a == b,
    decreases a,
{
    lemma_decimal_nonempty(a);
    lemma_decimal_nonempty(b);
    if a >= 10 && b >= 10 {
        let da = decimal(a);
        assert(da.drop_last() == decimal(a / 10));
        assert(decimal(b).drop_last() == decimal(b / 10));
        lemma_decimal_injective(a / 10, b / 10);
        assert(digit_of(da.last()) == a % 10);
        assert(digit_of(decimal(b).last()) == b % 10);
    } else if a < 10 && b < 10 {
        assert(digit_of(decimal(a)[0]) == a);
        assert(digit_of(decimal(b)[0]) == b);
    }
}

spec fn digit_of(c: char) -> nat {
    if c == '0' { 0 }
    else if c == '1' { 1 }
    else if c == '2' { 2 }
    else if c == '3' { 3 }
    else if c == '4' { 4 }
    else if c == '5' { 5 }
    else if c == '6' { 6 }
    else if c == '7' { 7 }
    else if c == '8' { 8 }
    else { 9 }
}

proof fn lemma_candidate_injective(base: Seq<char>, a: nat, b: nat)
    requires
        candidate(base, a) == candidate(base, b),
    ensures
        a == b,
{
    let p = base + seq!['_'];
    assert(candidate(base, a).skip(p.len() as int) =~= decimal(a));
    assert(candidate(base, b).skip(p.len() as int) =~= decimal(b));
    lemma_decimal_injective(a, b);
}

/// At most as many candidate names can be taken as there are combos.
proof fn lemma_taken_bound(cs: Seq<Combo>, base: Seq<char>, n: nat)
    requires
        forall|k: nat| k < n ==> name_taken(cs, #[trigger] candidate(base, k)),
    ensures
        n <= cs.len(),
{
    let x = set_int_range(0, n as int);
    let f = |k: int| candidate(base, k as nat);
    let y = x.map(f);
    lemma_int_range(0, n as int);
    assert forall|a: int, b: int| x.contains(a) && x.contains(b) && #[trigger] f(a) == #[trigger] f(b)
        implies a == b by {
        lemma_candidate_injective(base, a as nat, b as nat);
    }
    lemma_map_size(x, y, f);
    let all = names(cs).to_set();
    assert forall|nm: Seq<char>| y.contains(nm) implies all.contains(nm) by {
        let k = choose|k: int| x.contains(k) && f(k) == nm;
        assert(name_taken(cs, candidate(base, k as nat)));
        let j = choose|j: int| 0 <= j < cs.len() && #[trigger] cs[j].name@ == candidate(base, k as nat);
        assert(names(cs)[j] == nm);
    }
    names(cs).lemma_cardinality_of_set();
    lemma_len_subset(y, all);
}

proof fn lemma_first_free_from(cs: Seq<Combo>, base: Seq<char>, i: nat)
    requires
        forall|k: nat| k < i ==> name_taken(cs, #[trigger] candidate(base, k)),
    ensures
        exists|j: nat| is_first_free(cs, base, j),
    decreases cs.len() + 1 - i,
{
    lemma_taken_bound(cs, base, i);
    if !name_taken(cs, candidate(base, i)) {
        assert(is_first_free(cs, base, i));
    } else {
        assert forall|k: nat| k < i + 1 implies name_taken(cs, #[trigger] candidate(base, k)) by {
            if k < i {
            }
        }
        lemma_taken_bound(cs, base, i + 1);
        lemma_first_free_from(cs, base, i + 1);
    }
}

proof fn lemma_first_free_unique(cs: Seq<Combo>, base: Seq<char>, i: nat, j: nat)
    requires
        is_first_free(cs, base, i),
        is_first_free(cs, base, j),
    ensures
        i == j,
{
    if i < j {
        assert(name_taken(cs, candidate(base, i)));
    } else if j < i {
        assert(name_taken(cs, candidate(base, j)));
    }
}

/// A name given by `add_combo` to a combo without one is the base name of
/// its commands, an underscore and the smallest number whose name no
/// existing combo carries.
pub proof fn lemma_auto_name_is_first_free(cs: Seq<Combo>, commands: Seq<String>)
    ensures
        exists|i: nat|
            {
                &&& auto_name(cs, commands) == candidate(base_name(commands), i)
                &&& !name_taken(cs, candidate(base_name(commands), i))
                &&& forall|k: nat| k < i ==> name_taken(cs, #[trigger] candidate(base_name(commands), k))
            },
{
    let base = base_name(commands);
    lemma_first_free_from(cs, base, 0);
    let i = choose|i: nat| is_first_free(cs, base, i);
    assert(auto_name(cs, commands) == candidate(base, i));
}

/// Whether some combo of the list carries exactly this name.
pub fn name_in_use(combos: &Vec<Combo>, name: &String) -> (r: bool)
    ensures
        r == name_taken(combos@, name@),
{
    let mut i: usize = 0;
    while i < combos.len()
        invariant
            i <= combos.len(),
            forall|k: int| 0 <= k < i ==> combos@[k].name@ != name@,
        decreases combos.len() - i,
    {
        if combos[i].name == *name {
            return true;
        }
        i += 1;
    }
    false
}

fn make_candidate(base: &String, i: usize) -> (r: String)
    ensures
        r@ == candidate(base@, i as nat),
{
    let mut s = base.clone();
    push_char(&mut s, '_');
    push_decimal(&mut s, i as u64);
    s
}

/// The first free name for a base: the base, an underscore and the smallest
/// number whose name no combo of the list carries.
pub fn first_free_name(combos: &Vec<Combo>, base: &String) -> (r: String)
    ensures
        is_first_free(combos@, base@, choose|i: nat| is_first_free(combos@, base@, i)),
        r@ == candidate(base@, choose|i: nat| is_first_free(combos@, base@, i)),
{
    let mut i: usize = 0;
    let mut cand = make_candidate(base, i);
    while name_in_use(combos, &cand)
        invariant
            cand@ == candidate(base@, i as nat),
            i <= combos.len(),
            forall|k: nat| k < i ==> name_taken(combos@, #[trigger] candidate(base@, k)),
        decreases combos.len() - i,
    {
        proof {
            assert forall|k: nat| k < i + 1 implies name_taken(combos@, #[trigger] candidate(base@, k)) by {
                if k < i {
                }
            }
            lemma_taken_bound(combos@, base@, (i + 1) as nat);
        }
        i += 1;
        cand = make_candidate(base, i);
    }
    proof {
        assert(is_first_free(combos@, base@, i as nat));
        let j = choose|j: nat| is_first_free(combos@, base@, j);
        lemma_first_free_unique(combos@, base@, i as nat, j);
    }
    cand
}

/// Adds a combo with these commands, used at `now`. Without a name it is
/// named after the first token of its last command (see `auto_name`).
pub fn add_combo(combos: &mut Vec<Combo>, commands: Vec<String>, name: Option<String>, now: i64)
    ensures
        views(final(combos)@) == added(
            old(combos)@,
            match name {
                Some(n) => n@,
                None => auto_name(old(combos)@, commands@),
            },
            commands@,
            now,
        ),
{
    let combo_name = match name {
        Some(n) => n,
        None => {
            let base = if commands.len() == 0 {
                String::from_str("combo")
            } else {
                sanitize_name(commands[commands.len() - 1].as_str())
            };
            first_free_name(combos, &base)
        },
    };
    combos.push(Combo { name: combo_name, commands, last_used: now });
    assert(views(combos@) =~= added(
        old(combos)@,
        match name {
            Some(n) => n@,
            None => auto_name(old(combos)@, commands@),
        },
        commands@,
        now,
    ));
}

/// Relies on chrono's `Utc::now` and `DateTime::timestamp`: the present time
/// in whole seconds since the Unix epoch. Nothing is promised of its value.
#[verifier::external_body]
fn now_timestamp() -> (t: i64) {
    chrono::Utc::now().timestamp()
}

/// Adds a combo as `add_combo` does, stamped with the present time.
pub fn add_combo_now(combos: &mut Vec<Combo>, commands: Vec<String>, name: Option<String>) -> (now: i64)
    ensures
        views(final(combos)@) == added(
            old(combos)@,
            match name {
                Some(n) => n@,
                None => auto_name(old(combos)@, commands@),
            },
            commands@,
            now,
        ),
{
    let now = now_timestamp();
    add_combo(combos, commands, name, now);
    now
}

/// The index of the first combo named exactly `name`, if any.
pub fn find_combo(combos: &Vec<Combo>, name: &str) -> (r: Option<usize>)
    ensures
        match r {
            Some(i) => {
                &&& i < combos@.len()
                &&& combos@[i as int].name@ == name@
                &&& forall|k: int| 0 <= k < i ==> combos@[k].name@ != name@
            },
            None => !name_taken(combos@, name@),
        },
{
    let target = String::from_str(name);
    let mut i: usize = 0;
    while i < combos.len()
        invariant
            i <= combos.len(),
            target@ == name@,
            forall|k: int| 0 <= k < i ==> combos@[k].name@ != name@,
        decreases combos.len() - i,
    {
        if combos[i].name == target {
            return Some(i);
        }
        i += 1;
    }
    None
}

/// The list with the first combo named exactly `name` stamped `now`; the list
/// itself when no combo carries that name.
pub open spec fn touched(cs: Seq<Combo>, name: Seq<char>, now: i64) -> Seq<ComboView> {
    if name_taken(cs, name) {
        let i = choose|i: int| 0 <= i < cs.len() && cs[i].name@ == name
            && forall|k: int| 0 <= k < i ==> cs[k].name@ != name;
        views(cs).update(i, ComboView { last_used: now, ..cs[i]@ })
    } else {
        views(cs)
    }
}

/// Stamps the first combo named exactly `name` with `now`; does nothing when
/// no combo carries that name.
pub fn update_last_used(combos: &mut Vec<Combo>, name: &str, now: i64)
    ensures
        views(final(combos)@) == touched(old(combos)@, name@, now),
{
    match find_combo(combos, name) {
        Some(i) => {
            let ghost cs = combos@;
            combos[i].last_used = now;
            proof {
                let j = choose|j: int| 0 <= j < cs.len() && cs[j].name@ == name@
                    && forall|k: int| 0 <= k < j ==> cs[k].name@ != name@;
                assert(j == i);
                assert(views(combos@) =~= touched(cs, name@, now));
            }
        },
        None => {},
    }
}

/// Stamps the first combo named exactly `name` with the present time.
pub fn update_last_used_now(combos: &mut Vec<Combo>, name: &str) -> (now: i64)
    ensures
        views(final(combos)@) == touched(old(combos)@, name@, now),
{
    let now = now_timestamp();
    update_last_used(combos, name, now);
    now
}

/// Removes every combo named exactly `name`; says whether any was removed.
pub fn delete_combo(combos: &mut Vec<Combo>, name: &str) -> (removed: bool)
    ensures
        final(combos)@ == without_name(old(combos)@, name@),
        removed == name_taken(old(combos)@, name@),
{
    let ghost orig = combos@;
    let target = String::from_str(name);
    let mut i: usize = 0;
    let mut removed = false;
    let ghost mut j: int = 0;
    while i < combos.len()
        invariant
            target@ == name@,
            0 <= j <= orig.len(),
            i <= combos@.len(),
            combos@ == without_name(orig.take(j), name@) + orig.skip(j),
            i == without_name(orig.take(j), name@).len(),
            removed == name_taken(orig.take(j), name@),
        decreases combos@.len() - i,
    {
        let ghost kept = without_name(orig.take(j), name@);
        assert(orig.take(j + 1) =~= orig.take(j).push(orig[j]));
        proof {
            orig.take(j).lemma_filter_push(orig[j], |c: Combo| c.name@ != name@);
        }
        assert(combos@[i as int] == orig[j]);
        if combos[i].name == target {
            combos.remove(i);
            removed = true;
            assert(name_taken(orig.take(j + 1), name@)) by {
                assert(orig.take(j + 1)[j].name@ == name@);
            }
        } else {
            i += 1;
            assert(removed == name_taken(orig.take(j + 1), name@)) by {
                if name_taken(orig.take(j + 1), name@) {
                    let k = choose|k: int| 0 <= k < j + 1 && #[trigger] orig.take(j + 1)[k].name@ == name@;
                    assert(orig.take(j)[k].name@ == name@);
                }
                if removed {
                    let k = choose|k: int| 0 <= k < j && #[trigger] orig.take(j)[k].name@ == name@;
                    assert(orig.take(j + 1)[k].name@ == name@);
                }
            }
        }
        proof {
            j = j + 1;
        }
        assert(combos@ =~= without_name(orig.take(j), name@) + orig.skip(j));
    }
    proof {
        assert(orig.skip(j).len() == 0);
        assert(orig.take(j) =~= orig);
    }
    removed
}

/// Where a combo used at `t` goes in a list ordered most recent first: after
/// every combo from `i` on used at `t` or later.
pub open spec fn insert_pos(r: Seq<Combo>, t: i64, i: int) -> int
    decreases r.len() - i,
{
    if 0 <= i < r.len() && r[i].last_used >= t {
        insert_pos(r, t, i + 1)
    } else {
        i
    }
}

/// The list ordered most recent first; combos used at the same time keep
/// their order.
pub open spec fn by_recency(cs: Seq<Combo>) -> Seq<Combo>
    decreases cs.len(),
{
    if cs.len() == 0 {
        cs
    } else {
        let r = by_recency(cs.drop_last());
        r.insert(insert_pos(r, cs.last().last_used, 0), cs.last())
    }
}

/// The list is ordered most recent first.
pub open spec fn recent_first(cs: Seq<Combo>) -> bool {
    forall|i: int, j: int| 0 <= i < j < cs.len() ==> cs[i].last_used >= cs[j].last_used
}

proof fn lemma_insert_pos(r: Seq<Combo>, t: i64, i: int)
    requires
        0 <= i <= r.len(),
    ensures
        i <= insert_pos(r, t, i) <= r.len(),
        forall|k: int| i <= k < insert_pos(r, t, i) ==> r[k].last_used >= t,
        insert_pos(r, t, i) < r.len() ==> r[insert_pos(r, t, i)].last_used < t,
    decreases r.len() - i,
{
    if i < r.len() && r[i].last_used >= t {
        lemma_insert_pos(r, t, i + 1);
    }
}

/// `by_recency` orders most recent first and keeps every combo.
pub proof fn lemma_by_recency(cs: Seq<Combo>)
    ensures
        recent_first(by_recency(cs)),
        by_recency(cs).to_multiset() == cs.to_multiset(),
    decreases cs.len(),
{
    broadcast use vstd::multiset::group_multiset_axioms;
    if cs.len() > 0 {
        let r = by_recency(cs.drop_last());
        lemma_by_recency(cs.drop_last());
        let x = cs.last();
        let p = insert_pos(r, x.last_used, 0);
        lemma_insert_pos(r, x.last_used, 0);
        let s = r.insert(p, x);
        assert forall|i: int, j: int| 0 <= i < j < s.len() implies s[i].last_used >= s[j].last_used by {
            if j < p {
            } else if j == p {
            } else if i < p {
                assert(r[i].last_used >= x.last_used);
                if p < r.len() {
                    assert(r[i].last_used >= r[j - 1].last_used);
                }
            } else if i == p {
                assert(r[p].last_used >= r[j - 1].last_used);
            } else {
            }
        }
        vstd::seq_lib::to_multiset_insert(r, p, x);
        assert(cs =~= cs.drop_last().push(x));
        vstd::seq_lib::to_multiset_build(cs.drop_last(), x);
    }
}

/// The combos ordered most recent first; those used at the same time keep
/// their order.
pub fn sort_by_recency(combos: Vec<Combo>) -> (r: Vec<Combo>)
    ensures
        r@ == by_recency(combos@),
        recent_first(r@),
        r@.to_multiset() == combos@.to_multiset(),
{
    let ghost orig = combos@;
    let mut rest = combos;
    let mut out: Vec<Combo> = Vec::new();
    let ghost mut n: int = 0;
    while rest.len() > 0
        invariant
            0 <= n <= orig.len(),
            rest@ == orig.skip(n),
            out@ == by_recency(orig.take(n)),
        decreases rest.len(),
    {
        let x = rest.remove(0);
        let t = x.last_used;
        let mut p: usize = 0;
        while p < out.len() && out[p].last_used >= t
            invariant
                p <= out@.len(),
                insert_pos(out@, t, p as int) == insert_pos(out@, t, 0),
            decreases out.len() - p,
        {
            p += 1;
        }
        assert(orig.take(n + 1).drop_last() =~= orig.take(n));
        out.insert(p, x);
        proof {
            n = n + 1;
        }
        assert(rest@ =~= orig.skip(n));
    }
    assert(orig.take(n) =~= orig);
    proof {
        lemma_by_recency(orig);
    }
    out
}

/// Removing by name keeps exactly the combos of another name, in order: none
/// of exactly that name is left, every other one stays, and when no combo
/// carries the name the list is unchanged (and `delete_combo` says so).
pub proof fn lemma_delete_exact(cs: Seq<Combo>, name: Seq<char>)
    ensures
        forall|k: int| 0 <= k < without_name(cs, name).len() ==> #[trigger] without_name(cs, name)[k].name@ != name,
        forall|c: Combo| cs.contains(c) && c.name@ != name ==> #[trigger] without_name(cs, name).contains(c),
        without_name(cs, name).len() + cs.filter(|c: Combo| c.name@ == name).len() == cs.len(),
        !name_taken(cs, name) ==> without_name(cs, name) == cs,
    decreases cs.len(),
{
    reveal(Seq::filter);
    if cs.len() > 0 {
        let init = cs.drop_last();
        lemma_delete_exact(init, name);
        assert(cs =~= init.push(cs.last()));
        let w = without_name(cs, name);
        let wi = without_name(init, name);
        assert forall|k: int| 0 <= k < w.len() implies #[trigger] w[k].name@ != name by {
            if k < wi.len() {
                assert(w[k] == wi[k]);
            }
        }
        assert forall|c: Combo| cs.contains(c) && c.name@ != name implies #[trigger] w.contains(c) by {
            let k = choose|k: int| 0 <= k < cs.len() && cs[k] == c;
            if k < init.len() {
                assert(init[k] == c);
                assert(init.contains(c));
                assert(wi.contains(c));
                let j = choose|j: int| 0 <= j < wi.len() && wi[j] == c;
                assert(w[j] == c);
            } else {
                assert(w[w.len() - 1] == c);
            }
        }
        if !name_taken(cs, name) {
            assert forall|k: int| 0 <= k < init.len() implies init[k].name@ != name by {
                assert(init[k] == cs[k]);
            }
            assert(cs[cs.len() - 1].name@ != name);
        }
    }
}

/// The line that lists a combo: its name and when it was last used.
pub open spec fn listing_line(c: ComboView) -> Seq<char> {
    c.name + " (last used: "@ + signed_decimal(c.last_used as int) + ")"@
}

fn line_of(c: &Combo) -> (r: String)
    ensures
        r@ == listing_line(c@),
{
    let mut line = c.name.clone();
    line.append(" (last used: ");
    push_signed_decimal(&mut line, c.last_used);
    line.append(")");
    line
}

/// The lines that list the combos, most recently used first.
pub fn listing(combos: Vec<Combo>) -> (r: Vec<String>)
    ensures
        texts(r@) == views(by_recency(combos@)).map_values(|c: ComboView| listing_line(c)),
{
    let sorted = sort_by_recency(combos);
    let mut r: Vec<String> = Vec::new();
    let mut i: usize = 0;
    while i < sorted.len()
        invariant
            i <= sorted@.len(),
            r@.len() == i,
            forall|k: int| 0 <= k < i ==> #[trigger] r@[k]@ == listing_line(sorted@[k]@),
        decreases sorted.len() - i,
    {
        let line = line_of(&sorted[i]);
        r.push(line);
        i += 1;
    }
    assert(texts(r@) =~= views(sorted@).map_values(|c: ComboView| listing_line(c)));
    r
}

} // verus!
