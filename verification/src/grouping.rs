//! Grouping devices under their controllers, in the order of the buses.

use crate::discovery::{controllers, devices, ControllerModel, DeviceModel, HidDevice, I2cController};
use crate::irq_map::{lookup, IrqMap};
use vstd::prelude::*;

verus! {

/// The devices of `ds` that sit on the controller `name`, in order.
pub open spec fn on_controller(ds: Seq<DeviceModel>, name: Seq<char>) -> Seq<DeviceModel>
    decreases ds.len(),
{
    if ds.len() == 0 {
        Seq::empty()
    } else if ds.last().controller == name {
        on_controller(ds.drop_last(), name).push(ds.last())
    } else {
        on_controller(ds.drop_last(), name)
    }
}

/// The index in `ds` of the first device on the controller `name`, or the
/// length of `ds` where no device sits on it.
pub open spec fn first_on(ds: Seq<DeviceModel>, name: Seq<char>) -> int
    decreases ds.len(),
{
    if ds.len() == 0 {
        0
    } else if first_on(ds.drop_last(), name) < ds.len() - 1 {
        first_on(ds.drop_last(), name)
    } else if ds.last().controller == name {
        ds.len() - 1
    } else {
        ds.len() as int
    }
}

/// The names of the controllers `cs`.
pub open spec fn names(cs: Seq<ControllerModel>) -> Seq<Seq<char>> {
    Seq::new(cs.len(), |i: int| cs[i].name)
}

/// Whether `c` is the controller that the devices `ds` make up under its
/// name: it holds exactly the devices on it, in their order, of which there
/// is at least one; its bus number is that of the first of them; and its
/// interrupt line is the one the hints hold under its name.
pub open spec fn made_of(c: ControllerModel, ds: Seq<DeviceModel>, irqs: Map<Seq<char>, Seq<char>>) -> bool {
    &&& 0 <= first_on(ds, c.name) < ds.len()
    &&& c.bus_num == ds[first_on(ds, c.name)].bus_num
    &&& c.irq == lookup(irqs, c.name)
    &&& c.hid_devices == on_controller(ds, c.name)
}

/// Whether `a` comes before `b`: on a lower bus or, on the same bus, with an
/// earlier first device.
pub open spec fn precedes(a: ControllerModel, b: ControllerModel, ds: Seq<DeviceModel>) -> bool {
    a.bus_num < b.bus_num || (a.bus_num == b.bus_num && first_on(ds, a.name) < first_on(
        ds,
        b.name,
    ))
}

/// Whether `cs` is the grouping of the devices `ds`: every device's
/// controller is there, each controller is made of its devices, and the
/// controllers stand in ascending order of bus number, those of one bus in the
/// order in which their first devices appear.  There is one such grouping.
pub open spec fn groups(
    ds: Seq<DeviceModel>,
    irqs: Map<Seq<char>, Seq<char>>,
    cs: Seq<ControllerModel>,
) -> bool {
    &&& forall|d: int| 0 <= d < ds.len() ==> names(cs).contains(#[trigger] ds[d].controller)
    &&& forall|c: int| 0 <= c < cs.len() ==> made_of(#[trigger] cs[c], ds, irqs)
    &&& forall|i: int, j: int| 0 <= i < j < cs.len() ==> precedes(#[trigger] cs[i], #[trigger] cs[j], ds)
}

/// `first_on` is the index of the first device on the controller, or the
/// length.
pub proof fn lemma_first_on(ds: Seq<DeviceModel>, name: Seq<char>)
    ensures
        0 <= first_on(ds, name) <= ds.len(),
        first_on(ds, name) < ds.len() ==> ds[first_on(ds, name)].controller == name,
        forall|j: int| 0 <= j < first_on(ds, name) ==> (#[trigger] ds[j]).controller != name,
    decreases ds.len(),
{
    if ds.len() > 0 {
        let t = ds.drop_last();
        lemma_first_on(t, name);
        assert forall|j: int| 0 <= j < first_on(ds, name) implies (#[trigger] ds[j]).controller
            != name by {
            if j < t.len() {
                assert(ds[j] == t[j]);
            }
        }
        if first_on(ds, name) < ds.len() - 1 {
            assert(ds[first_on(ds, name)] == t[first_on(t, name)]);
        }
    }
}

/// Where no device sits on a controller, none is first and none is on it.
pub proof fn lemma_none_on(ds: Seq<DeviceModel>, name: Seq<char>)
    requires
        forall|j: int| 0 <= j < ds.len() ==> (#[trigger] ds[j]).controller != name,
    ensures
        first_on(ds, name) == ds.len(),
        on_controller(ds, name) == Seq::<DeviceModel>::empty(),
    decreases ds.len(),
{
    if ds.len() > 0 {
        let t = ds.drop_last();
        assert forall|j: int| 0 <= j < t.len() implies (#[trigger] t[j]).controller != name by {
            assert(t[j] == ds[j]);
        }
        lemma_none_on(t, name);
        assert(ds.last() == ds[ds.len() - 1]);
    }
}

/// The controllers of a grouping have distinct names.
pub proof fn lemma_names_distinct(
    ds: Seq<DeviceModel>,
    irqs: Map<Seq<char>, Seq<char>>,
    cs: Seq<ControllerModel>,
)
    requires
        groups(ds, irqs, cs),
    ensures
        forall|i: int, j: int|
            0 <= i < cs.len() && 0 <= j < cs.len() && i != j ==> (#[trigger] cs[i]).name != (
            #[trigger] cs[j]).name,
{
    assert forall|i: int, j: int| 0 <= i < cs.len() && 0 <= j < cs.len() && i != j implies (
    #[trigger] cs[i]).name != (#[trigger] cs[j]).name by {
        if cs[i].name == cs[j].name {
            assert(made_of(cs[i], ds, irqs));
            assert(made_of(cs[j], ds, irqs));
            if i < j {
                assert(precedes(cs[i], cs[j], ds));
            } else {
                assert(precedes(cs[j], cs[i], ds));
            }
        }
    }
}

/// Whether the controllers `cs` are each made of their devices and stand in
/// order.
pub open spec fn ordered_made(
    ds: Seq<DeviceModel>,
    irqs: Map<Seq<char>, Seq<char>>,
    cs: Seq<ControllerModel>,
) -> bool {
    &&& forall|c: int| 0 <= c < cs.len() ==> made_of(#[trigger] cs[c], ds, irqs)
    &&& forall|i: int, j: int|
        0 <= i < j < cs.len() ==> precedes(#[trigger] cs[i], #[trigger] cs[j], ds)
}

/// Two ordered lists of controllers with the same names are the same list.
proof fn lemma_ordered_unique(
    ds: Seq<DeviceModel>,
    irqs: Map<Seq<char>, Seq<char>>,
    a: Seq<ControllerModel>,
    b: Seq<ControllerModel>,
)
    requires
        ordered_made(ds, irqs, a),
        ordered_made(ds, irqs, b),
        forall|n: Seq<char>| names(a).contains(n) <==> names(b).contains(n),
    ensures
        a == b,
    decreases a.len(),
{
    if a.len() == 0 {
        if b.len() > 0 {
            assert(names(b)[0] == b[0].name);
            assert(names(b).contains(b[0].name));
            assert(names(a).contains(b[0].name));
        }
        assert(a =~= b);
    } else {
        assert(names(a)[0] == a[0].name);
        assert(names(a).contains(a[0].name));
        assert(names(b).contains(a[0].name));
        let j = choose|j: int| 0 <= j < names(b).len() && names(b)[j] == a[0].name;
        assert(names(b)[0] == b[0].name);
        assert(names(b).contains(b[0].name));
        assert(names(a).contains(b[0].name));
        let i = choose|i: int| 0 <= i < names(a).len() && names(a)[i] == b[0].name;
        assert(made_of(a[0], ds, irqs));
        assert(made_of(a[i], ds, irqs));
        assert(made_of(b[0], ds, irqs));
        assert(made_of(b[j], ds, irqs));
        if j > 0 {
            assert(precedes(b[0], b[j], ds));
            if i > 0 {
                assert(precedes(a[0], a[i], ds));
            }
            assert(false);
        }
        assert(a[0] == b[0]);
        let a1 = a.drop_first();
        let b1 = b.drop_first();
        assert forall|c: int| 0 <= c < a1.len() implies made_of(#[trigger] a1[c], ds, irqs) by {
            assert(a1[c] == a[c + 1]);
        }
        assert forall|c: int| 0 <= c < b1.len() implies made_of(#[trigger] b1[c], ds, irqs) by {
            assert(b1[c] == b[c + 1]);
        }
        assert forall|x: int, y: int| 0 <= x < y < a1.len() implies precedes(
            #[trigger] a1[x],
            #[trigger] a1[y],
            ds,
        ) by {
            assert(a1[x] == a[x + 1] && a1[y] == a[y + 1]);
        }
        assert forall|x: int, y: int| 0 <= x < y < b1.len() implies precedes(
            #[trigger] b1[x],
            #[trigger] b1[y],
            ds,
        ) by {
            assert(b1[x] == b[x + 1] && b1[y] == b[y + 1]);
        }
        assert forall|n: Seq<char>| names(a1).contains(n) <==> names(b1).contains(n) by {
            if names(a1).contains(n) {
                let k = choose|k: int| 0 <= k < names(a1).len() && names(a1)[k] == n;
                assert(a1[k] == a[k + 1]);
                assert(names(a)[k + 1] == n);
                assert(names(a).contains(n));
                let m = choose|m: int| 0 <= m < names(b).len() && names(b)[m] == n;
                assert(precedes(a[0], a[k + 1], ds));
                assert(made_of(a[k + 1], ds, irqs));
                assert(m != 0);
                assert(names(b1)[m - 1] == n);
            }
            if names(b1).contains(n) {
                let k = choose|k: int| 0 <= k < names(b1).len() && names(b1)[k] == n;
                assert(b1[k] == b[k + 1]);
                assert(names(b)[k + 1] == n);
                assert(names(b).contains(n));
                let m = choose|m: int| 0 <= m < names(a).len() && names(a)[m] == n;
                assert(precedes(b[0], b[k + 1], ds));
                assert(made_of(b[k + 1], ds, irqs));
                assert(m != 0);
                assert(names(a1)[m - 1] == n);
            }
        }
        lemma_ordered_unique(ds, irqs, a1, b1);
        assert(a =~= seq![a[0]] + a1);
        assert(b =~= seq![b[0]] + b1);
    }
}

/// The devices have one grouping: two lists of controllers that both group
/// them are equal.
pub proof fn lemma_grouping_unique(
    ds: Seq<DeviceModel>,
    irqs: Map<Seq<char>, Seq<char>>,
    a: Seq<ControllerModel>,
    b: Seq<ControllerModel>,
)
    requires
        groups(ds, irqs, a),
        groups(ds, irqs, b),
    ensures
        a == b,
{
    assert forall|n: Seq<char>| names(a).contains(n) <==> names(b).contains(n) by {
        if names(a).contains(n) {
            let k = choose|k: int| 0 <= k < names(a).len() && names(a)[k] == n;
            assert(made_of(a[k], ds, irqs));
            lemma_first_on(ds, n);
            assert(names(b).contains(ds[first_on(ds, n)].controller));
        }
        if names(b).contains(n) {
            let k = choose|k: int| 0 <= k < names(b).len() && names(b)[k] == n;
            assert(made_of(b[k], ds, irqs));
            lemma_first_on(ds, n);
            assert(names(a).contains(ds[first_on(ds, n)].controller));
        }
    }
    lemma_ordered_unique(ds, irqs, a, b);
}

/// The controller that a first device opens.
pub open spec fn opened_by(d: DeviceModel, irqs: Map<Seq<char>, Seq<char>>) -> ControllerModel {
    ControllerModel {
        name: d.controller,
        bus_num: d.bus_num,
        irq: lookup(irqs, d.controller),
        hid_devices: seq![d],
    }
}

/// The controller `c` with one more device.
pub open spec fn joined_by(c: ControllerModel, d: DeviceModel) -> ControllerModel {
    ControllerModel { hid_devices: c.hid_devices.push(d), ..c }
}

/// One more device on a controller that is there keeps the grouping, with
/// the device added to that controller.
pub proof fn lemma_join(
    ds: Seq<DeviceModel>,
    k: int,
    irqs: Map<Seq<char>, Seq<char>>,
    cs: Seq<ControllerModel>,
    at: int,
)
    requires
        0 <= k < ds.len(),
        groups(ds.take(k), irqs, cs),
        0 <= at < cs.len(),
        cs[at].name == ds[k].controller,
    ensures
        groups(ds.take(k + 1), irqs, cs.update(at, joined_by(cs[at], ds[k]))),
{
    let before = ds.take(k);
    let after = ds.take(k + 1);
    let d = ds[k];
    let cs2 = cs.update(at, joined_by(cs[at], d));
    assert(after.drop_last() =~= before);
    assert(after.last() == d);
    lemma_names_distinct(before, irqs, cs);
    assert forall|c: int| 0 <= c < cs2.len() implies made_of(#[trigger] cs2[c], after, irqs) by {
        assert(made_of(cs[c], before, irqs));
        assert(cs2[c].name == cs[c].name);
        assert(after[first_on(before, cs[c].name)] == before[first_on(before, cs[c].name)]);
        if c != at {
            assert(cs[c].name != cs[at].name);
        }
    }
    assert forall|i: int, j: int| 0 <= i < j < cs2.len() implies precedes(
        #[trigger] cs2[i],
        #[trigger] cs2[j],
        after,
    ) by {
        assert(precedes(cs[i], cs[j], before));
        assert(made_of(cs[i], before, irqs));
        assert(made_of(cs[j], before, irqs));
    }
    assert forall|x: int| 0 <= x < after.len() implies names(cs2).contains(
        #[trigger] after[x].controller,
    ) by {
        if x < k {
            assert(names(cs).contains(before[x].controller));
            let w = choose|w: int| 0 <= w < names(cs).len() && names(cs)[w] == before[x].controller;
            assert(names(cs2)[w] == before[x].controller);
        } else {
            assert(names(cs2)[at] == d.controller);
        }
    }
}

/// One more device leaves a controller that has devices where it is, and
/// joins it if it sits on it.
pub proof fn lemma_step_known(ds: Seq<DeviceModel>, k: int, name: Seq<char>)
    requires
        0 <= k < ds.len(),
        first_on(ds.take(k), name) < k,
    ensures
        first_on(ds.take(k + 1), name) == first_on(ds.take(k), name),
        0 <= first_on(ds.take(k), name),
        ds.take(k + 1)[first_on(ds.take(k), name)] == ds.take(k)[first_on(ds.take(k), name)],
        on_controller(ds.take(k + 1), name) == if ds[k].controller == name {
            on_controller(ds.take(k), name).push(ds[k])
        } else {
            on_controller(ds.take(k), name)
        },
{
    assert(ds.take(k + 1).drop_last() =~= ds.take(k));
    assert(ds.take(k + 1).last() == ds[k]);
    lemma_first_on(ds.take(k), name);
}

/// The first device on a controller is its first, and so far its only one.
pub proof fn lemma_step_fresh(ds: Seq<DeviceModel>, k: int)
    requires
        0 <= k < ds.len(),
        forall|j: int| 0 <= j < k ==> (#[trigger] ds[j]).controller != ds[k].controller,
    ensures
        first_on(ds.take(k + 1), ds[k].controller) == k,
        on_controller(ds.take(k + 1), ds[k].controller) == seq![ds[k]],
{
    let before = ds.take(k);
    assert(ds.take(k + 1).drop_last() =~= before);
    assert(ds.take(k + 1).last() == ds[k]);
    assert forall|j: int| 0 <= j < before.len() implies (#[trigger] before[j]).controller
        != ds[k].controller by {
        assert(before[j] == ds[j]);
    }
    lemma_none_on(before, ds[k].controller);
    assert(Seq::<DeviceModel>::empty().push(ds[k]) =~= seq![ds[k]]);
}

/// Opening a controller keeps the controllers in order.
proof fn lemma_open_order(
    ds: Seq<DeviceModel>,
    k: int,
    cs: Seq<ControllerModel>,
    at: int,
    fresh: ControllerModel,
)
    requires
        0 <= k < ds.len(),
        0 <= at <= cs.len(),
        fresh.name == ds[k].controller,
        fresh.bus_num == ds[k].bus_num,
        first_on(ds.take(k + 1), fresh.name) == k,
        forall|i: int, j: int|
            0 <= i < j < cs.len() ==> precedes(#[trigger] cs[i], #[trigger] cs[j], ds.take(k)),
        forall|c: int|
            0 <= c < cs.len() ==> first_on(ds.take(k + 1), (#[trigger] cs[c]).name) == first_on(
                ds.take(k),
                cs[c].name,
            ) && first_on(ds.take(k), cs[c].name) < k,
        forall|i: int| 0 <= i < at ==> (#[trigger] cs[i]).bus_num <= ds[k].bus_num,
        forall|i: int| at <= i < cs.len() ==> (#[trigger] cs[i]).bus_num > ds[k].bus_num,
    ensures
        forall|i: int, j: int|
            0 <= i < j < cs.len() + 1 ==> precedes(
                #[trigger] cs.insert(at, fresh)[i],
                #[trigger] cs.insert(at, fresh)[j],
                ds.take(k + 1),
            ),
{
    let cs2 = cs.insert(at, fresh);
    let after = ds.take(k + 1);
    assert forall|i: int, j: int| 0 <= i < j < cs.len() + 1 implies precedes(
        #[trigger] cs2[i],
        #[trigger] cs2[j],
        after,
    ) by {
        let oi = if i < at {
            i
        } else {
            i - 1
        };
        let oj = if j < at {
            j
        } else {
            j - 1
        };
        if i != at && j != at {
            assert(cs2[i] == cs[oi]);
            assert(cs2[j] == cs[oj]);
            assert(precedes(cs[oi], cs[oj], ds.take(k)));
        } else if i == at {
            assert(cs2[i] == fresh);
            assert(cs2[j] == cs[oj]);
            assert(cs[oj].bus_num > ds[k].bus_num);
        } else {
            assert(cs2[j] == fresh);
            assert(cs2[i] == cs[oi]);
            assert(cs[oi].bus_num <= ds[k].bus_num);
        }
    }
}

/// Opening a controller keeps every controller made of its devices.
proof fn lemma_open_made(
    ds: Seq<DeviceModel>,
    k: int,
    irqs: Map<Seq<char>, Seq<char>>,
    cs: Seq<ControllerModel>,
    at: int,
)
    requires
        0 <= k < ds.len(),
        0 <= at <= cs.len(),
        forall|c: int| 0 <= c < cs.len() ==> made_of(#[trigger] cs[c], ds.take(k), irqs),
        forall|c: int| 0 <= c < cs.len() ==> (#[trigger] cs[c]).name != ds[k].controller,
        forall|j: int| 0 <= j < k ==> (#[trigger] ds[j]).controller != ds[k].controller,
    ensures
        first_on(ds.take(k + 1), ds[k].controller) == k,
        forall|c: int|
            0 <= c < cs.len() ==> first_on(ds.take(k + 1), (#[trigger] cs[c]).name) == first_on(
                ds.take(k),
                cs[c].name,
            ) && first_on(ds.take(k), cs[c].name) < k,
        forall|c: int|
            0 <= c < cs.len() + 1 ==> made_of(
                #[trigger] cs.insert(at, opened_by(ds[k], irqs))[c],
                ds.take(k + 1),
                irqs,
            ),
{
    let after = ds.take(k + 1);
    let fresh = opened_by(ds[k], irqs);
    let cs2 = cs.insert(at, fresh);
    lemma_step_fresh(ds, k);
    assert(after[k] == ds[k]);
    assert(made_of(fresh, after, irqs));
    assert forall|c: int| 0 <= c < cs.len() implies made_of(#[trigger] cs[c], after, irqs)
        && first_on(after, cs[c].name) == first_on(ds.take(k), cs[c].name) && first_on(
        ds.take(k),
        cs[c].name,
    ) < k by {
        assert(made_of(cs[c], ds.take(k), irqs));
        lemma_step_known(ds, k, cs[c].name);
    }
    assert forall|c: int| 0 <= c < cs.len() + 1 implies made_of(#[trigger] cs2[c], after, irqs) by {
        if c < at {
            assert(cs2[c] == cs[c]);
        } else if c > at {
            assert(cs2[c] == cs[c - 1]);
        } else {
            assert(cs2[c] == fresh);
        }
    }
}

/// Opening a controller keeps every device's controller in the list.
proof fn lemma_open_cover(ds: Seq<DeviceModel>, k: int, cs: Seq<ControllerModel>, at: int, fresh: ControllerModel)
    requires
        0 <= k < ds.len(),
        0 <= at <= cs.len(),
        fresh.name == ds[k].controller,
        forall|d: int| 0 <= d < k ==> names(cs).contains(#[trigger] ds.take(k)[d].controller),
    ensures
        forall|d: int|
            0 <= d < k + 1 ==> names(cs.insert(at, fresh)).contains(
                #[trigger] ds.take(k + 1)[d].controller,
            ),
{
    let before = ds.take(k);
    let after = ds.take(k + 1);
    let cs2 = cs.insert(at, fresh);
    assert forall|x: int| 0 <= x < k + 1 implies names(cs2).contains(
        #[trigger] after[x].controller,
    ) by {
        if x < k {
            assert(after[x] == before[x]);
            assert(names(cs).contains(before[x].controller));
            let w = choose|w: int| 0 <= w < names(cs).len() && names(cs)[w] == before[x].controller;
            if w < at {
                assert(names(cs2)[w] == before[x].controller);
            } else {
                assert(names(cs2)[w + 1] == before[x].controller);
            }
        } else {
            assert(names(cs2)[at] == fresh.name);
        }
    }
}

/// A device on a controller that is not there yet opens it at the place
/// that its bus number gives, behind the controllers of the same bus.
pub proof fn lemma_open(
    ds: Seq<DeviceModel>,
    k: int,
    irqs: Map<Seq<char>, Seq<char>>,
    cs: Seq<ControllerModel>,
    at: int,
)
    requires
        0 <= k < ds.len(),
        groups(ds.take(k), irqs, cs),
        !names(cs).contains(ds[k].controller),
        0 <= at <= cs.len(),
        forall|i: int| 0 <= i < at ==> (#[trigger] cs[i]).bus_num <= ds[k].bus_num,
        forall|i: int| at <= i < cs.len() ==> (#[trigger] cs[i]).bus_num > ds[k].bus_num,
    ensures
        groups(ds.take(k + 1), irqs, cs.insert(at, opened_by(ds[k], irqs))),
{
    let before = ds.take(k);
    let fresh = opened_by(ds[k], irqs);
    assert forall|j: int| 0 <= j < k implies (#[trigger] ds[j]).controller != ds[k].controller by {
        assert(before[j] == ds[j]);
        assert(names(cs).contains(before[j].controller));
    }
    assert forall|c: int| 0 <= c < cs.len() implies (#[trigger] cs[c]).name != ds[k].controller by {
        assert(names(cs)[c] == cs[c].name);
    }
    lemma_open_made(ds, k, irqs, cs, at);
    lemma_open_order(ds, k, cs, at, fresh);
    lemma_open_cover(ds, k, cs, at, fresh);
}

/// The place of the controller `name` among `list`.
fn position_of(list: &Vec<I2cController>, name: &String) -> (out: Option<usize>)
    ensures
        out is Some == names(controllers(list@)).contains(name@),
        out is Some ==> out->0 < list.len() && list@[out->0 as int].name@ == name@,
{
    let ghost ns = names(controllers(list@));
    let mut i: usize = 0;
    while i < list.len()
        invariant
            i <= list.len(),
            ns == names(controllers(list@)),
            forall|k: int| 0 <= k < i ==> ns[k] != name@,
        decreases list.len() - i,
    {
        if list[i].name == *name {
            assert(ns[i as int] == name@);
            return Some(i);
        }
        i += 1;
    }
    None
}

/// The place at which a controller of the bus `bus_num` is opened: before
/// the first controller of a higher bus.
fn place_for(list: &Vec<I2cController>, bus_num: u8) -> (out: usize)
    ensures
        out <= list.len(),
        forall|i: int| 0 <= i < out ==> (#[trigger] list@[i]).bus_num <= bus_num,
        out < list.len() ==> list@[out as int].bus_num > bus_num,
{
    let mut i: usize = 0;
    while i < list.len() && list[i].bus_num <= bus_num
        invariant
            i <= list.len(),
            forall|k: int| 0 <= k < i ==> (#[trigger] list@[k]).bus_num <= bus_num,
        decreases list.len() - i,
    {
        i += 1;
    }
    i
}

/// Groups devices under their controllers.  The controllers come out in
/// ascending order of bus number; controllers of one bus keep the order in
/// which their first devices came in.
pub fn group_by_controller(found: Vec<HidDevice>, controller_irqs: &IrqMap) -> (out: Vec<
    I2cController,
>)
    ensures
        groups(devices(found@), controller_irqs@, controllers(out@)),
{
    let ghost ds = devices(found@);
    let ghost irqs = controller_irqs@;
    let mut out: Vec<I2cController> = Vec::new();
    assert(ds.take(0) =~= Seq::<DeviceModel>::empty());
    for device in it: found
        invariant
            it.seq() == found@,
            ds == devices(found@),
            irqs == controller_irqs@,
            groups(ds.take(it.index() as int), irqs, controllers(out@)),
    {
        let ghost k = it.index() as int;
        let ghost cs = controllers(out@);
        assert(ds[k] == device@);
        match position_of(&out, &device.controller) {
            Some(at) => {
                proof {
                    lemma_join(ds, k, irqs, cs, at as int);
                }
                let ghost joined = out@[at as int].hid_devices@.push(device);
                out[at].hid_devices.push(device);
                proof {
                    assert(devices(joined) =~= cs[at as int].hid_devices.push(ds[k]));
                    assert(controllers(out@) =~= cs.update(at as int, joined_by(cs[at as int], ds[k])));
                }
            },
            None => {
                let at = place_for(&out, device.bus_num);
                proof {
                    assert forall|i: int| at <= i < cs.len() implies (#[trigger] cs[i]).bus_num
                        > ds[k].bus_num by {
                        if i > at {
                            assert(precedes(cs[at as int], cs[i], ds.take(k)));
                        }
                    }
                    assert forall|i: int| 0 <= i < at implies (#[trigger] cs[i]).bus_num
                        <= ds[k].bus_num by {
                        assert(cs[i] == out@[i]@);
                    }
                    lemma_open(ds, k, irqs, cs, at as int);
                }
                let mut hid_devices: Vec<HidDevice> = Vec::new();
                let controller = I2cController {
                    name: device.controller.clone(),
                    bus_num: device.bus_num,
                    irq: controller_irqs.get(&device.controller),
                    hid_devices: Vec::new(),
                };
                hid_devices.push(device);
                let controller = I2cController { hid_devices, ..controller };
                proof {
                    assert(devices(controller.hid_devices@) =~= seq![ds[k]]);
                    assert(controller@ == opened_by(ds[k], irqs));
                    assert(controllers(out@.insert(at as int, controller)) =~= cs.insert(
                        at as int,
                        opened_by(ds[k], irqs),
                    ));
                }
                out.insert(at, controller);
            },
        }
    }
    assert(ds.take(found@.len() as int) =~= ds);
    out
}

} // verus!
