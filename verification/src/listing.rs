//! The list of devices: those that are paired, and those that were seen.

use crate::lan::{
    elapsed, is_shut_out, shut_out, since, BlockedView, DeviceView, DiscoveredView, LanDevice,
    LanShared, SettingsView, SharedView, ONLINE_WINDOW,
};
use crate::strmap::StrMap;
use crate::text::{
    copy_text, in_order, lemma_text_le_total, lemma_text_le_transitive, opt_text, same, same_text,
    text_le,
};
use vstd::prelude::*;
use vstd::string::*;

verus! {

// ---------- what is listed ----------

/// A device in the list: whether it is online, and the time of the newest clip
/// that was fetched from it, in milliseconds.
pub struct Listed {
    pub device: LanDevice,
    pub online: bool,
    pub last_sync: i64,
}

/// The view of a device in the list.
#[verifier::ext_equal]
pub struct ListedView {
    pub device: DeviceView,
    pub online: bool,
    pub last_sync: i64,
}

impl View for Listed {
    type V = ListedView;

    open spec fn view(&self) -> ListedView {
        ListedView { device: self.device@, online: self.online, last_sync: self.last_sync }
    }
}

/// The devices that were seen not too long ago.
pub open spec fn live(d: Map<Seq<char>, DiscoveredView>, now: u64) -> Map<
    Seq<char>,
    DiscoveredView,
> {
    Map::new(
        |k: Seq<char>| d.contains_key(k) && elapsed(now, d[k].last_seen) < ONLINE_WINDOW,
        |k: Seq<char>| d[k],
    )
}

/// Whether a device is listed: it is paired or online, and not shut out.
pub open spec fn is_listed(
    s: SettingsView,
    l: Map<Seq<char>, DiscoveredView>,
    id: Seq<char>,
) -> bool {
    (s.paired.contains_key(id) || l.contains_key(id)) && !shut_out(s, id)
}

/// How a device is listed. Of a paired device that is online the address and
/// whether it shares are the newest; one whose code is not known is listed as it
/// announces itself.
pub open spec fn entry(
    s: SettingsView,
    l: Map<Seq<char>, DiscoveredView>,
    id: Seq<char>,
) -> ListedView {
    let known = s.paired.contains_key(id);
    let online = l.contains_key(id);
    let d = if !known {
        l[id].device
    } else if !online {
        s.paired[id]
    } else if s.paired[id].token is None {
        l[id].device
    } else {
        DeviceView {
            host: l[id].device.host,
            port: l[id].device.port,
            sharing: l[id].device.sharing,
            ..s.paired[id]
        }
    };
    ListedView {
        device: DeviceView { paired: known, ..d },
        online: online,
        last_sync: if s.last_sync.contains_key(id) {
            s.last_sync[id]
        } else {
            0
        },
    }
}

/// Whether `a` may stand before `b` in the list: those online come first, then
/// the names decide.
pub open spec fn listed_le(a: ListedView, b: ListedView) -> bool {
    if a.online != b.online {
        a.online
    } else {
        text_le(a.device.name, b.device.name)
    }
}

/// What is kept of a paired device that announces itself: where its address, its
/// name or its sharing differs, all of it becomes the newest.
pub open spec fn renewed(p: DeviceView, o: DeviceView) -> DeviceView {
    if p.host != o.host || p.port != o.port || p.name != o.name || p.sharing != o.sharing {
        DeviceView {
            host: o.host,
            port: o.port,
            name: o.name,
            model: o.model,
            sharing: o.sharing,
            ..p
        }
    } else {
        p
    }
}

/// The paired devices once the announcements are taken into account.
pub open spec fn refreshed(s: SettingsView, l: Map<Seq<char>, DiscoveredView>) -> SettingsView {
    SettingsView {
        paired: Map::new(
            |k: Seq<char>| s.paired.contains_key(k),
            |k: Seq<char>|
                if l.contains_key(k) && !shut_out(s, k) {
                    renewed(s.paired[k], l[k].device)
                } else {
                    s.paired[k]
                },
        ),
        ..s
    }
}

/// The views of a list.
pub open spec fn listed_views(v: Seq<Listed>) -> Seq<ListedView> {
    v.map_values(|d: Listed| d@)
}

/// No identity occurs twice.
pub open spec fn distinct(ids: Seq<Seq<char>>) -> bool {
    forall|i: int, j: int| 0 <= i < j < ids.len() ==> #[trigger] ids[i] != #[trigger] ids[j]
}

/// Whether `list` is the list of devices, `ids` being their identities in its order.
pub open spec fn is_list(
    list: Seq<ListedView>,
    ids: Seq<Seq<char>>,
    s: SettingsView,
    l: Map<Seq<char>, DiscoveredView>,
) -> bool {
    &&& list.len() == ids.len()
    &&& distinct(ids)
    &&& forall|i: int| 0 <= i < ids.len() ==> is_listed(s, l, #[trigger] ids[i])
    &&& forall|k: Seq<char>| #[trigger] is_listed(s, l, k) ==> ids.contains(k)
    &&& forall|i: int| 0 <= i < ids.len() ==> #[trigger] list[i] == entry(s, l, ids[i])
    &&& is_sorted(list)
}

/// Whether a list stands in its order.
pub open spec fn is_sorted(list: Seq<ListedView>) -> bool {
    forall|i: int, j: int| 0 <= i < j < list.len() ==> listed_le(#[trigger] list[i], #[trigger] list[j])
}

proof fn lemma_listed_le_total(a: ListedView, b: ListedView)
    ensures
        listed_le(a, b) || listed_le(b, a),
{
    lemma_text_le_total(a.device.name, b.device.name);
}

proof fn lemma_listed_le_transitive(a: ListedView, b: ListedView, c: ListedView)
    requires
        listed_le(a, b),
        listed_le(b, c),
    ensures
        listed_le(a, c),
{
    if a.online == b.online && b.online == c.online {
        lemma_text_le_transitive(a.device.name, b.device.name, c.device.name);
    }
}

fn may_stand_before(a: &Listed, b: &Listed) -> (r: bool)
    ensures
        r == listed_le(a@, b@),
{
    if a.online != b.online {
        a.online
    } else {
        in_order(a.device.name.as_str(), b.device.name.as_str())
    }
}

/// Puts a device into a list at its place: after all that may stand before it.
fn place(list: &mut Vec<Listed>, d: Listed) -> (at: usize)
    requires
        is_sorted(listed_views(old(list)@)),
    ensures
        at <= old(list)@.len(),
        listed_views(final(list)@) == listed_views(old(list)@).insert(at as int, d@),
        is_sorted(listed_views(final(list)@)),
        final(list)@.len() == old(list)@.len() + 1,
{
    let ghost before = listed_views(list@);
    let ghost dv = d@;
    let mut at: usize = list.len();
    while at > 0 && !may_stand_before(&list[at - 1], &d)
        invariant
            at <= list@.len(),
            before == listed_views(list@),
            dv == d@,
            forall|j: int| at <= j < before.len() ==> !listed_le(#[trigger] before[j], dv),
        decreases at,
    {
        at = at - 1;
    }
    list.insert(at, d);
    proof {
        let after = before.insert(at as int, dv);
        assert(listed_views(list@) =~= after);
        if at > 0 {
            assert(listed_le(before[at - 1], dv));
        }
        assert forall|i: int, j: int| 0 <= i < j < after.len() implies listed_le(
            #[trigger] after[i],
            #[trigger] after[j],
        ) by {
            let n = at as int;
            if j < n {
                assert(listed_le(before[i], before[j]));
            } else if j == n {
                if i < n - 1 {
                    assert(listed_le(before[i], before[n - 1]));
                    lemma_listed_le_transitive(before[i], before[n - 1], dv);
                }
            } else if i < n {
                assert(listed_le(before[i], before[j - 1]));
            } else if i == n {
                lemma_listed_le_total(before[j - 1], dv);
            } else {
                assert(listed_le(before[i - 1], before[j - 1]));
            }
        }
    }
    at
}

/// Forgets the devices that were not seen for long.
fn drop_stale(d: &mut StrMap<crate::lan::Discovered>, now: u64)
    ensures
        final(d)@ == live(old(d)@, now),
{
    let keys = d.keys();
    let ghost first = d@;
    let mut i: usize = 0;
    while i < keys.len()
        invariant
            i <= keys@.len(),
            forall|k: Seq<char>| #[trigger]
                d@.contains_key(k) ==> first.contains_key(k) && d@[k] == first[k],
            forall|k: Seq<char>| #[trigger]
                first.contains_key(k) && !d@.contains_key(k) ==> elapsed(now, first[k].last_seen)
                    >= ONLINE_WINDOW,
            forall|j: int|
                0 <= j < i ==> (d@.contains_key(#[trigger] keys@[j]@) ==> elapsed(
                    now,
                    first[keys@[j]@].last_seen,
                ) < ONLINE_WINDOW),
        decreases keys@.len() - i,
    {
        let stale = match d.get(keys[i].as_str()) {
            Some(e) => since(now, e.last_seen) >= ONLINE_WINDOW,
            None => false,
        };
        let ghost before = d@;
        if stale {
            let _ = d.remove(keys[i].as_str());
        }
        proof {
            assert forall|j: int| 0 <= j < i + 1 && d@.contains_key(
                #[trigger] keys@[j]@,
            ) implies elapsed(now, first[keys@[j]@].last_seen) < ONLINE_WINDOW by {
                if j < i {
                    assert(before.contains_key(keys@[j]@));
                }
            }
        }
        i = i + 1;
    }
    proof {
        assert forall|k: Seq<char>| #[trigger] d@.contains_key(k) == live(first, now).contains_key(
            k,
        ) by {
            if first.contains_key(k) {
                let j = choose|j: int| 0 <= j < keys@.len() && #[trigger] keys@[j]@ == k;
                assert(keys@[j]@ == k);
            }
        }
        assert(d@ =~= live(first, now));
    }
}

/// Renews what is kept of a paired device that announces itself.
fn renew(p: &LanDevice, o: &LanDevice) -> (r: Option<LanDevice>)
    ensures
        match r {
            Some(d) => d@ == renewed(p@, o@),
            None => renewed(p@, o@) == p@,
        },
{
    if !same_text(&p.host, &o.host) || p.port != o.port || !same(p.name.as_str(), o.name.as_str())
        || p.sharing != o.sharing {
        Some(
            LanDevice {
                device_id: p.device_id.clone(),
                name: o.name.clone(),
                model: copy_text(&o.model),
                host: copy_text(&o.host),
                port: o.port,
                sharing: o.sharing,
                paired: p.paired,
                token: copy_text(&p.token),
            },
        )
    } else {
        None
    }
}

fn entry_of(shared: &LanShared, id: &str) -> (r: Listed)
    requires
        shared@.settings.paired.contains_key(id@) || shared@.discovered.contains_key(id@),
    ensures
        r@ == entry(shared@.settings, shared@.discovered, id@),
{
    let last_sync: i64 = match shared.settings.last_sync.get(id) {
        Some(t) => *t,
        None => 0,
    };
    match (shared.settings.paired.get(id), shared.discovered.get(id)) {
        (Some(p), Some(o)) => {
            let d = match &p.token {
                None => LanDevice {
                    device_id: o.device.device_id.clone(),
                    name: o.device.name.clone(),
                    model: copy_text(&o.device.model),
                    host: copy_text(&o.device.host),
                    port: o.device.port,
                    sharing: o.device.sharing,
                    paired: true,
                    token: copy_text(&o.device.token),
                },
                Some(t) => LanDevice {
                    device_id: p.device_id.clone(),
                    name: p.name.clone(),
                    model: copy_text(&p.model),
                    host: copy_text(&o.device.host),
                    port: o.device.port,
                    sharing: o.device.sharing,
                    paired: true,
                    token: Some(t.clone()),
                },
            };
            Listed { device: d, online: true, last_sync: last_sync }
        },
        (Some(p), None) => {
            let mut d = p.clone();
            d.paired = true;
            Listed { device: d, online: false, last_sync: last_sync }
        },
        (None, Some(o)) => {
            let mut d = o.device.clone();
            d.paired = false;
            Listed { device: d, online: true, last_sync: last_sync }
        },
        (None, None) => Listed { device: LanDevice::default(), online: false, last_sync: last_sync },
    }
}

/// Adds to a list, each at its place, those devices of `keys` that are not shut
/// out; where `strangers` is set, only those that are not paired.
fn list_keys(
    shared: &LanShared,
    keys: &Vec<String>,
    strangers: bool,
    list: &mut Vec<Listed>,
    ids: Ghost<Seq<Seq<char>>>,
) -> (r: Ghost<Seq<Seq<char>>>)
    requires
        is_sorted(listed_views(old(list)@)),
        old(list)@.len() == ids@.len(),
        distinct(ids@),
        forall|i: int| 0 <= i < ids@.len() ==> is_listed(shared@.settings, shared@.discovered, #[trigger] ids@[i]),
        forall|i: int|
            0 <= i < ids@.len() ==> #[trigger] listed_views(old(list)@)[i] == entry(
                shared@.settings,
                shared@.discovered,
                ids@[i],
            ),
        forall|i: int, j: int| 0 <= i < j < keys@.len() ==> #[trigger] keys@[i]@ != #[trigger] keys@[j]@,
        forall|i: int|
            0 <= i < keys@.len() ==> (if strangers {
                shared@.discovered.contains_key(#[trigger] keys@[i]@)
            } else {
                shared@.settings.paired.contains_key(keys@[i]@)
            }),
        strangers ==> forall|i: int|
            0 <= i < ids@.len() ==> shared@.settings.paired.contains_key(#[trigger] ids@[i]),
        !strangers ==> ids@.len() == 0,
    ensures
        is_sorted(listed_views(final(list)@)),
        final(list)@.len() == r@.len(),
        distinct(r@),
        forall|i: int| 0 <= i < r@.len() ==> is_listed(shared@.settings, shared@.discovered, #[trigger] r@[i]),
        forall|i: int|
            0 <= i < r@.len() ==> #[trigger] listed_views(final(list)@)[i] == entry(
                shared@.settings,
                shared@.discovered,
                r@[i],
            ),
        forall|i: int| 0 <= i < ids@.len() ==> r@.contains(#[trigger] ids@[i]),
        forall|i: int|
            0 <= i < keys@.len() && !shut_out(shared@.settings, #[trigger] keys@[i]@) && !(strangers
                && shared@.settings.paired.contains_key(keys@[i]@)) ==> r@.contains(keys@[i]@),
        !strangers ==> forall|i: int|
            0 <= i < r@.len() ==> shared@.settings.paired.contains_key(#[trigger] r@[i]),
{
    let ghost s = shared@.settings;
    let ghost l = shared@.discovered;
    let ghost mut out = ids@;
    let ghost start = ids@;
    let mut i: usize = 0;
    while i < keys.len()
        invariant
            i <= keys@.len(),
            s == shared@.settings,
            l == shared@.discovered,
            start == ids@,
            is_sorted(listed_views(list@)),
            list@.len() == out.len(),
            distinct(out),
            forall|a: int| 0 <= a < out.len() ==> is_listed(s, l, #[trigger] out[a]),
            forall|a: int| 0 <= a < out.len() ==> #[trigger] listed_views(list@)[a] == entry(s, l, out[a]),
            forall|a: int, b: int| 0 <= a < b < keys@.len() ==> #[trigger] keys@[a]@ != #[trigger] keys@[b]@,
            forall|a: int|
                0 <= a < keys@.len() ==> (if strangers {
                    l.contains_key(#[trigger] keys@[a]@)
                } else {
                    s.paired.contains_key(keys@[a]@)
                }),
            forall|a: int| 0 <= a < start.len() ==> out.contains(#[trigger] start[a]),
            forall|a: int|
                0 <= a < i && !shut_out(s, #[trigger] keys@[a]@) && !(strangers
                    && s.paired.contains_key(keys@[a]@)) ==> out.contains(keys@[a]@),
            forall|a: int|
                0 <= a < out.len() ==> (start.contains(#[trigger] out[a]) || exists|b: int|
                    0 <= b < i && #[trigger] keys@[b]@ == out[a]),
            strangers ==> forall|a: int| 0 <= a < start.len() ==> s.paired.contains_key(#[trigger] start[a]),
            !strangers ==> start.len() == 0,
            !strangers ==> forall|a: int| 0 <= a < out.len() ==> s.paired.contains_key(#[trigger] out[a]),
        decreases keys@.len() - i,
    {
        let id = keys[i].as_str();
        assert(id@ == keys@[i as int]@);
        let known = shared.settings.paired.contains_key(id);
        if !is_shut_out(&shared.settings, id) && !(strangers && known) {
            let e = entry_of(shared, id);
            let ghost ev = e@;
            let ghost views = listed_views(list@);
            let at = place(list, e);
            proof {
                let before = out;
                let k = id@;
                out = before.insert(at as int, k);
                assert(!before.contains(k)) by {
                    if before.contains(k) {
                        let a = choose|a: int| 0 <= a < before.len() && before[a] == k;
                        if start.contains(before[a]) {
                            let c = choose|c: int| 0 <= c < start.len() && start[c] == before[a];
                            assert(s.paired.contains_key(start[c]));
                        } else {
                            let b = choose|b: int| 0 <= b < i && #[trigger] keys@[b]@ == before[a];
                            assert(keys@[b]@ != keys@[i as int]@);
                        }
                    }
                }
                assert forall|a: int| 0 <= a < before.len() implies out.contains(
                    #[trigger] before[a],
                ) by {
                    if a < at {
                        assert(out[a] == before[a]);
                    } else {
                        assert(out[a + 1] == before[a]);
                    }
                }
                assert(out[at as int] == k);
                assert forall|a: int| 0 <= a < start.len() implies out.contains(
                    #[trigger] start[a],
                ) by {
                    assert(before.contains(start[a]));
                    let c = choose|c: int| 0 <= c < before.len() && before[c] == start[a];
                    assert(out.contains(before[c]));
                }
                assert forall|a: int|
                    0 <= a < i + 1 && !shut_out(s, #[trigger] keys@[a]@) && !(strangers
                        && s.paired.contains_key(keys@[a]@)) implies out.contains(keys@[a]@) by {
                    if a < i {
                        assert(before.contains(keys@[a]@));
                        let c = choose|c: int| 0 <= c < before.len() && before[c] == keys@[a]@;
                        assert(out.contains(before[c]));
                    }
                }
                assert(distinct(out)) by {
                    assert forall|a: int, b: int| 0 <= a < b < out.len() implies #[trigger] out[a]
                        != #[trigger] out[b] by {
                        if a == at {
                            assert(out[b] == before[b - 1]);
                        } else if b == at {
                            assert(out[a] == before[a]);
                        } else {
                            let a2 = if a < at {
                                a
                            } else {
                                a - 1
                            };
                            let b2 = if b < at {
                                b
                            } else {
                                b - 1
                            };
                            assert(before[a2] != before[b2]);
                        }
                    }
                }
                assert forall|a: int| 0 <= a < out.len() implies is_listed(s, l, #[trigger] out[a])
                    && listed_views(list@)[a] == entry(s, l, out[a]) && (start.contains(out[a])
                    || exists|b: int| 0 <= b < i + 1 && #[trigger] keys@[b]@ == out[a]) && (
                !strangers ==> s.paired.contains_key(out[a])) by {
                    if a < at {
                        assert(out[a] == before[a]);
                        assert(views[a] == entry(s, l, before[a]));
                    } else if a > at {
                        assert(out[a] == before[a - 1]);
                        assert(views[a - 1] == entry(s, l, before[a - 1]));
                    } else {
                        assert(keys@[i as int]@ == out[a]);
                    }
                }
            }
        }
        i = i + 1;
    }
    Ghost(out)
}

/// Renews what is kept of all paired devices that announce themselves.
fn refresh(shared: &mut LanShared)
    ensures
        final(shared)@ == (SharedView {
            settings: refreshed(old(shared)@.settings, old(shared)@.discovered),
            ..old(shared)@
        }),
{
    let keys = shared.discovered.keys();
    let ghost s = shared@.settings;
    let ghost l = shared@.discovered;
    let ghost first = shared@;
    let mut i: usize = 0;
    while i < keys.len()
        invariant
            i <= keys@.len(),
            s == first.settings,
            l == first.discovered,
            shared@ == (SharedView {
                settings: SettingsView { paired: shared@.settings.paired, ..s },
                ..first
            }),
            shared@.settings.paired.dom() == s.paired.dom(),
            forall|a: int, b: int| 0 <= a < b < keys@.len() ==> #[trigger] keys@[a]@ != #[trigger] keys@[b]@,
            forall|k: Seq<char>| #[trigger]
                s.paired.contains_key(k) ==> shared@.settings.paired[k] == s.paired[k]
                    || shared@.settings.paired[k] == refreshed(s, l).paired[k],
            forall|a: int|
                0 <= a < i && s.paired.contains_key(#[trigger] keys@[a]@)
                    ==> shared@.settings.paired[keys@[a]@] == refreshed(s, l).paired[keys@[a]@],
            forall|a: int|
                i <= a < keys@.len() && s.paired.contains_key(#[trigger] keys@[a]@)
                    ==> shared@.settings.paired[keys@[a]@] == s.paired[keys@[a]@],
        decreases keys@.len() - i,
    {
        let id = keys[i].as_str();
        assert(id@ == keys@[i as int]@);
        let ghost before = shared@;
        if !is_shut_out(&shared.settings, id) {
            let fresh = match (shared.settings.paired.get(id), shared.discovered.get(id)) {
                (Some(p), Some(o)) => renew(p, &o.device),
                _ => None,
            };
            match fresh {
                Some(d) => {
                    shared.settings.paired.insert(id.to_string(), d);
                    assert(shared@.settings.paired.dom() =~= s.paired.dom());
                },
                None => {},
            }
        }
        proof {
            assert forall|a: int| i < a < keys@.len() && s.paired.contains_key(
                #[trigger] keys@[a]@,
            ) implies shared@.settings.paired[keys@[a]@] == s.paired[keys@[a]@] by {
                assert(keys@[i as int]@ != keys@[a]@);
                assert(before.settings.paired[keys@[a]@] == s.paired[keys@[a]@]);
            }
        }
        i = i + 1;
    }
    proof {
        let r = refreshed(s, l);
        assert forall|k: Seq<char>| #[trigger] s.paired.contains_key(k) implies shared@.settings.paired[k]
            == r.paired[k] by {
            if l.contains_key(k) {
                let a = choose|a: int| 0 <= a < keys@.len() && #[trigger] keys@[a]@ == k;
                assert(keys@[a]@ == k);
            }
        }
        assert(shared@.settings.paired =~= r.paired);
    }
}

/// The list of devices: the paired ones and those that are online, without those
/// that are shut out. Devices that were not seen for long are forgotten, and
/// what is kept of the paired ones that are online is renewed.
pub fn merged_devices(shared: &mut LanShared, now: u64) -> (r: Vec<Listed>)
    ensures
        ({
            let s = old(shared)@.settings;
            let l = live(old(shared)@.discovered, now);
            &&& final(shared)@ == (SharedView {
                discovered: l,
                settings: refreshed(s, l),
                ..old(shared)@
            })
            &&& exists|ids: Seq<Seq<char>>| is_list(listed_views(r@), ids, s, l)
        }),
{
    drop_stale(&mut shared.discovered, now);
    let ghost s = shared@.settings;
    let ghost l = shared@.discovered;
    let paired = shared.settings.paired.keys();
    let online = shared.discovered.keys();
    let mut list: Vec<Listed> = Vec::new();
    let ghost none = Seq::<Seq<char>>::empty();
    let Ghost(some) = list_keys(shared, &paired, false, &mut list, Ghost(none));
    let Ghost(ids) = list_keys(shared, &online, true, &mut list, Ghost(some));
    proof {
        assert forall|k: Seq<char>| #[trigger] is_listed(s, l, k) implies ids.contains(k) by {
            if s.paired.contains_key(k) {
                let a = choose|a: int| 0 <= a < paired@.len() && #[trigger] paired@[a]@ == k;
                assert(paired@[a]@ == k);
                assert(some.contains(k));
                let b = choose|b: int| 0 <= b < some.len() && some[b] == k;
                assert(ids.contains(some[b]));
            } else {
                let a = choose|a: int| 0 <= a < online@.len() && #[trigger] online@[a]@ == k;
                assert(online@[a]@ == k);
            }
        }
        assert(is_list(listed_views(list@), ids, s, l));
    }
    refresh(shared);
    list
}

/// A device that is shut out is never listed.
pub proof fn shut_out_is_not_listed(
    list: Seq<ListedView>,
    ids: Seq<Seq<char>>,
    s: SettingsView,
    l: Map<Seq<char>, DiscoveredView>,
    id: Seq<char>,
)
    requires
        is_list(list, ids, s, l),
        shut_out(s, id),
    ensures
        !ids.contains(id),
{
}

/// Renewing what is kept of the paired devices neither pairs nor unpairs any, and
/// touches no pairing code.
pub proof fn refreshing_keeps_codes(
    s: SettingsView,
    l: Map<Seq<char>, DiscoveredView>,
    id: Seq<char>,
)
    requires
        s.paired.contains_key(id),
    ensures
        refreshed(s, l).paired.dom() == s.paired.dom(),
        refreshed(s, l).paired[id].token == s.paired[id].token,
        refreshed(s, l).paired[id].device_id == s.paired[id].device_id,
{
    assert(refreshed(s, l).paired.dom() =~= s.paired.dom());
}

// ---------- automatic synchronisation ----------

/// Whether a device is synchronised without being asked: it is paired, online
/// and shares.
pub open spec fn is_target(d: ListedView) -> bool {
    d.online && d.device.paired && d.device.sharing
}

/// The identities of the devices that are synchronised without being asked.
pub open spec fn targets(list: Seq<ListedView>) -> Seq<Seq<char>>
    decreases list.len(),
{
    if list.len() == 0 {
        seq![]
    } else if is_target(list.last()) {
        targets(list.drop_last()).push(list.last().device.device_id)
    } else {
        targets(list.drop_last())
    }
}

/// The devices that are synchronised without being asked, in the order of the list.
pub fn auto_sync_targets(list: &Vec<Listed>) -> (r: Vec<String>)
    ensures
        crate::http::string_views(r@) == targets(listed_views(list@)),
{
    let mut out: Vec<String> = Vec::new();
    let ghost all = listed_views(list@);
    let mut i: usize = 0;
    assert(crate::http::string_views(out@) =~= targets(all.take(0)));
    while i < list.len()
        invariant
            i <= list@.len(),
            all == listed_views(list@),
            crate::http::string_views(out@) == targets(all.take(i as int)),
        decreases list@.len() - i,
    {
        let d = &list[i];
        assert(all.take(i + 1).drop_last() =~= all.take(i as int));
        assert(all.take(i + 1).last() == d@);
        if d.online && d.device.paired && d.device.sharing {
            let ghost before = out@;
            out.push(d.device.device_id.clone());
            assert(crate::http::string_views(out@) =~= crate::http::string_views(before).push(
                d@.device.device_id,
            ));
        }
        i = i + 1;
    }
    assert(all.take(i as int) =~= all);
    out
}

/// One turn of the automatic synchronisation: the devices to be synchronised now,
/// none where it is off.
pub fn auto_sync_turn(shared: &mut LanShared, now: u64) -> (r: Vec<String>)
    ensures
        ({
            let v = old(shared)@;
            let l = live(v.discovered, now);
            if v.settings.auto_sync {
                &&& final(shared)@ == (SharedView {
                    discovered: l,
                    settings: refreshed(v.settings, l),
                    ..v
                })
                &&& exists|list: Seq<ListedView>, ids: Seq<Seq<char>>|
                    #![trigger is_list(list, ids, v.settings, l)]
                    is_list(list, ids, v.settings, l) && crate::http::string_views(r@) == targets(
                        list,
                    )
            } else {
                final(shared)@ == v && r@.len() == 0
            }
        }),
{
    if !shared.settings.auto_sync {
        return Vec::new();
    }
    let list = merged_devices(shared, now);
    auto_sync_targets(&list)
}

// ---------- what is shown ----------

/// A device as it is shown.
pub struct DeviceDto {
    pub device_id: String,
    pub name: String,
    pub model: Option<String>,
    pub host: Option<String>,
    pub port: u16,
    pub sharing: bool,
    pub paired: bool,
    pub online: bool,
    pub last_sync: i64,
    pub syncing: bool,
}

/// The view of a device as it is shown.
#[verifier::ext_equal]
pub struct DeviceDtoView {
    pub device_id: Seq<char>,
    pub name: Seq<char>,
    pub model: Option<Seq<char>>,
    pub host: Option<Seq<char>>,
    pub port: u16,
    pub sharing: bool,
    pub paired: bool,
    pub online: bool,
    pub last_sync: i64,
    pub syncing: bool,
}

impl View for DeviceDto {
    type V = DeviceDtoView;

    open spec fn view(&self) -> DeviceDtoView {
        DeviceDtoView {
            device_id: self.device_id@,
            name: self.name@,
            model: opt_text(self.model),
            host: opt_text(self.host),
            port: self.port,
            sharing: self.sharing,
            paired: self.paired,
            online: self.online,
            last_sync: self.last_sync,
            syncing: self.syncing,
        }
    }
}

/// How a device in the list is shown. Its pairing code is not.
pub open spec fn dto(d: ListedView, syncing: Set<Seq<char>>) -> DeviceDtoView {
    DeviceDtoView {
        device_id: d.device.device_id,
        name: d.device.name,
        model: d.device.model,
        host: d.device.host,
        port: d.device.port,
        sharing: d.device.sharing,
        paired: d.device.paired,
        online: d.online,
        last_sync: d.last_sync,
        syncing: syncing.contains(d.device.device_id),
    }
}

/// The views of several devices as they are shown.
pub open spec fn dto_views(v: Seq<DeviceDto>) -> Seq<DeviceDtoView> {
    v.map_values(|d: DeviceDto| d@)
}

/// How a list is shown.
pub open spec fn dtos(list: Seq<ListedView>, syncing: Set<Seq<char>>) -> Seq<DeviceDtoView> {
    list.map_values(|d: ListedView| dto(d, syncing))
}

/// An entry of the block list as it is shown.
pub struct BlockedDto {
    pub device_id: String,
    pub name: String,
    pub model: Option<String>,
}

/// The view of an entry of the block list as it is shown.
#[verifier::ext_equal]
pub struct BlockedDtoView {
    pub device_id: Seq<char>,
    pub name: Seq<char>,
    pub model: Option<Seq<char>>,
}

impl View for BlockedDto {
    type V = BlockedDtoView;

    open spec fn view(&self) -> BlockedDtoView {
        BlockedDtoView { device_id: self.device_id@, name: self.name@, model: opt_text(self.model) }
    }
}

/// Whether `v` shows the block list: each entry once.
pub open spec fn shows_blocked(v: Seq<BlockedDto>, blocked: Map<Seq<char>, BlockedView>) -> bool {
    &&& forall|i: int, j: int|
        0 <= i < j < v.len() ==> (#[trigger] v[i])@.device_id != (#[trigger] v[j])@.device_id
    &&& forall|i: int|
        0 <= i < v.len() ==> blocked.contains_key((#[trigger] v[i])@.device_id) && v[i]@ == (
        BlockedDtoView {
            device_id: v[i]@.device_id,
            name: blocked[v[i]@.device_id].name,
            model: blocked[v[i]@.device_id].model,
        })
    &&& forall|k: Seq<char>| #[trigger]
        blocked.contains_key(k) ==> exists|i: int| 0 <= i < v.len() && (#[trigger] v[i])@.device_id == k
}

/// Everything that is shown of the local network.
pub struct LanStateDto {
    pub device_id: String,
    pub device_name: String,
    pub pairing_token: String,
    pub server_port: u16,
    pub actual_port: u16,
    pub server_running: bool,
    /// The address of this device; empty where it has none.
    pub local_ip: String,
    pub discoverable: bool,
    pub sharing: bool,
    pub auto_sync: bool,
    pub auto_accept_pair: bool,
    pub devices: Vec<DeviceDto>,
    pub blocked: Vec<BlockedDto>,
}

fn show_devices(list: &Vec<Listed>, syncing: &crate::strmap::StrSet) -> (r: Vec<DeviceDto>)
    ensures
        dto_views(r@) == dtos(listed_views(list@), syncing@),
{
    let mut out: Vec<DeviceDto> = Vec::new();
    let ghost all = dtos(listed_views(list@), syncing@);
    let mut i: usize = 0;
    assert(dto_views(out@) =~= all.take(0));
    while i < list.len()
        invariant
            i <= list@.len(),
            all == dtos(listed_views(list@), syncing@),
            dto_views(out@) == all.take(i as int),
        decreases list@.len() - i,
    {
        let l = &list[i];
        let d = DeviceDto {
            device_id: l.device.device_id.clone(),
            name: l.device.name.clone(),
            model: copy_text(&l.device.model),
            host: copy_text(&l.device.host),
            port: l.device.port,
            sharing: l.device.sharing,
            paired: l.device.paired,
            online: l.online,
            last_sync: l.last_sync,
            syncing: syncing.contains(l.device.device_id.as_str()),
        };
        let ghost before = out@;
        let ghost dv = d@;
        out.push(d);
        assert(dto_views(out@) =~= dto_views(before).push(dv));
        assert(all.take(i + 1) =~= all.take(i as int).push(dv));
        i = i + 1;
    }
    assert(all.take(i as int) =~= all);
    out
}

fn show_blocked(blocked: &StrMap<crate::lan::BlockedInfo>) -> (r: Vec<BlockedDto>)
    ensures
        shows_blocked(r@, blocked@),
{
    let keys = blocked.keys();
    let mut out: Vec<BlockedDto> = Vec::new();
    let mut i: usize = 0;
    while i < keys.len()
        invariant
            i <= keys@.len(),
            out@.len() == i,
            forall|a: int| 0 <= a < keys@.len() ==> blocked@.contains_key(#[trigger] keys@[a]@),
            forall|a: int|
                0 <= a < i ==> (#[trigger] out@[a])@ == (BlockedDtoView {
                    device_id: keys@[a]@,
                    name: blocked@[keys@[a]@].name,
                    model: blocked@[keys@[a]@].model,
                }),
        decreases keys@.len() - i,
    {
        let id = keys[i].as_str();
        assert(blocked@.contains_key(keys@[i as int]@));
        match blocked.get(id) {
            Some(b) => {
                out.push(
                    BlockedDto {
                        device_id: keys[i].clone(),
                        name: b.name.clone(),
                        model: copy_text(&b.model),
                    },
                );
            },
            None => {},
        }
        i = i + 1;
    }
    proof {
        assert forall|a: int, b: int| 0 <= a < b < out@.len() implies (#[trigger] out@[a])@.device_id
            != (#[trigger] out@[b])@.device_id by {
            assert(keys@[a]@ != keys@[b]@);
        }
        assert forall|k: Seq<char>| #[trigger] blocked@.contains_key(k) implies exists|a: int|
            0 <= a < out@.len() && (#[trigger] out@[a])@.device_id == k by {
            let a = choose|a: int| 0 <= a < keys@.len() && #[trigger] keys@[a]@ == k;
            assert(out@[a]@.device_id == k);
        }
    }
    out
}

/// Whether `r` shows the state `v` at `now`, and `after` is the state left behind:
/// the devices that are gone are dropped, the records of the others refreshed.
pub open spec fn shows_state(
    r: LanStateDto,
    v: SharedView,
    after: SharedView,
    now: u64,
    ip: Option<Seq<char>>,
) -> bool {
    let s = v.settings;
    let l = live(v.discovered, now);
    &&& after == (SharedView { discovered: l, settings: refreshed(s, l), ..v })
    &&& r.device_id@ == s.device_id
    &&& r.device_name@ == s.device_name
    &&& r.pairing_token@ == s.pairing_token
    &&& r.server_port == s.server_port
    &&& r.actual_port == v.actual_port
    &&& r.server_running == v.server_running
    &&& r.local_ip@ == (match ip {
        Some(a) => a,
        None => seq![],
    })
    &&& r.discoverable == s.discoverable
    &&& r.sharing == s.sharing
    &&& r.auto_sync == s.auto_sync
    &&& r.auto_accept_pair == s.auto_accept_pair
    &&& exists|list: Seq<ListedView>, ids: Seq<Seq<char>>|
        #![trigger is_list(list, ids, s, l)]
        is_list(list, ids, s, l) && dto_views(r.devices@) == dtos(list, v.syncing)
    &&& shows_blocked(r.blocked@, s.blocked)
}

/// Everything that is shown of the local network, `ip` being the address of this
/// device where it has one.
pub fn build_state_dto(shared: &mut LanShared, now: u64, ip: Option<String>) -> (r: LanStateDto)
    ensures
        shows_state(r, old(shared)@, final(shared)@, now, opt_text(ip)),
{
    let list = merged_devices(shared, now);
    let local_ip = match ip {
        Some(a) => a,
        None => String::new(),
    };
    assert(local_ip@ =~= match ip {
        Some(a) => a@,
        None => seq![],
    });
    LanStateDto {
        device_id: shared.settings.device_id.clone(),
        device_name: shared.settings.device_name.clone(),
        pairing_token: shared.settings.pairing_token.clone(),
        server_port: shared.settings.server_port,
        actual_port: shared.actual_port,
        server_running: shared.server_running,
        local_ip: local_ip,
        discoverable: shared.settings.discoverable,
        sharing: shared.settings.sharing,
        auto_sync: shared.settings.auto_sync,
        auto_accept_pair: shared.settings.auto_accept_pair,
        devices: show_devices(&list, &shared.syncing),
        blocked: show_blocked(&shared.settings.blocked),
    }
}

/// The state of the local network, as the settings window asks for it.
pub fn lan_get_state(shared: &mut LanShared, now: u64, ip: Option<String>) -> (r: LanStateDto)
    ensures
        shows_state(r, old(shared)@, final(shared)@, now, opt_text(ip)),
{
    build_state_dto(shared, now, ip)
}

// ---------- laws of the list ----------

/// A device counts as seen for 12 seconds after it was.
pub proof fn devices_are_seen_for_twelve_seconds(
    d: Map<Seq<char>, DiscoveredView>,
    now: u64,
    id: Seq<char>,
)
    ensures
        live(d, now).contains_key(id) <==> d.contains_key(id) && now - d[id].last_seen < 12_000,
        live(d, now).contains_key(id) ==> live(d, now)[id] == d[id],
{
}

/// What is listed is each device that is paired or seen, unless one of the two has
/// blocked the other, and none twice.
pub proof fn paired_and_seen_devices_are_listed(
    list: Seq<ListedView>,
    ids: Seq<Seq<char>>,
    s: SettingsView,
    l: Map<Seq<char>, DiscoveredView>,
    id: Seq<char>,
)
    requires
        is_list(list, ids, s, l),
    ensures
        ids.contains(id) <==> (s.paired.contains_key(id) || l.contains_key(id))
            && !s.blocked.contains_key(id) && !s.blocked_by.contains(id),
        list.len() == ids.len(),
        ids.no_duplicates(),
{
    if ids.contains(id) {
        let i = choose|i: int| 0 <= i < ids.len() && ids[i] == id;
        assert(is_listed(s, l, ids[i]));
    }
    if (s.paired.contains_key(id) || l.contains_key(id)) && !shut_out(s, id) {
        assert(is_listed(s, l, id));
    }
    assert forall|i: int, j: int| 0 <= i < ids.len() && 0 <= j < ids.len() && i != j implies ids[i]
        != ids[j] by {
        if i < j {
            assert(ids[i] != ids[j]);
        } else {
            assert(ids[j] != ids[i]);
        }
    }
}

/// What is listed of a device: it is online where it is seen and paired where it is
/// kept as such. Seen, it has the address that it was seen at; with a code of its own
/// it keeps the name, the code and the identity under which it was paired.
pub proof fn entries_tell_what_is_known(
    s: SettingsView,
    l: Map<Seq<char>, DiscoveredView>,
    id: Seq<char>,
)
    ensures
        entry(s, l, id).online == l.contains_key(id),
        entry(s, l, id).device.paired == s.paired.contains_key(id),
        s.last_sync.contains_key(id) ==> entry(s, l, id).last_sync == s.last_sync[id],
        !s.last_sync.contains_key(id) ==> entry(s, l, id).last_sync == 0,
        l.contains_key(id) ==> {
            &&& entry(s, l, id).device.host == l[id].device.host
            &&& entry(s, l, id).device.port == l[id].device.port
            &&& entry(s, l, id).device.sharing == l[id].device.sharing
        },
        !l.contains_key(id) && s.paired.contains_key(id) ==> {
            &&& entry(s, l, id).device.host == s.paired[id].host
            &&& entry(s, l, id).device.port == s.paired[id].port
            &&& entry(s, l, id).device.sharing == s.paired[id].sharing
            &&& entry(s, l, id).device.name == s.paired[id].name
            &&& entry(s, l, id).device.token == s.paired[id].token
            &&& entry(s, l, id).device.device_id == s.paired[id].device_id
        },
        s.paired.contains_key(id) && s.paired[id].token is Some ==> {
            &&& entry(s, l, id).device.name == s.paired[id].name
            &&& entry(s, l, id).device.token == s.paired[id].token
            &&& entry(s, l, id).device.device_id == s.paired[id].device_id
            &&& entry(s, l, id).device.model == s.paired[id].model
        },
        l.contains_key(id) && (!s.paired.contains_key(id) || s.paired[id].token is None) ==> {
            &&& entry(s, l, id).device.name == l[id].device.name
            &&& entry(s, l, id).device.token == l[id].device.token
            &&& entry(s, l, id).device.device_id == l[id].device.device_id
            &&& entry(s, l, id).device.model == l[id].device.model
        },
{
}

/// The devices that are online come first, and among those alike the names are in
/// order.
pub proof fn online_devices_come_first(
    list: Seq<ListedView>,
    ids: Seq<Seq<char>>,
    s: SettingsView,
    l: Map<Seq<char>, DiscoveredView>,
    i: int,
    j: int,
)
    requires
        is_list(list, ids, s, l),
        0 <= i < j < list.len(),
    ensures
        list[j].online ==> list[i].online,
        list[i].online == list[j].online ==> text_le(list[i].device.name, list[j].device.name),
{
    assert(listed_le(list[i], list[j]));
}

/// What is kept of a paired device follows what is seen of it: afterwards its address,
/// its name and whether it shares are those that were seen. What is not seen, or is
/// shut out, stays as it was.
pub proof fn seen_devices_are_renewed(
    s: SettingsView,
    l: Map<Seq<char>, DiscoveredView>,
    id: Seq<char>,
)
    requires
        s.paired.contains_key(id),
    ensures
        l.contains_key(id) && !s.blocked.contains_key(id) && !s.blocked_by.contains(id) ==> {
            let d = refreshed(s, l).paired[id];
            &&& d.host == l[id].device.host
            &&& d.port == l[id].device.port
            &&& d.name == l[id].device.name
            &&& d.sharing == l[id].device.sharing
            &&& d.token == s.paired[id].token
            &&& d.paired == s.paired[id].paired
            &&& d.device_id == s.paired[id].device_id
        },
        !l.contains_key(id) || s.blocked.contains_key(id) || s.blocked_by.contains(id)
            ==> refreshed(s, l).paired[id] == s.paired[id],
        refreshed(s, l).blocked == s.blocked,
        refreshed(s, l).blocked_by == s.blocked_by,
        refreshed(s, l).pairing_token == s.pairing_token,
        refreshed(s, l).last_sync == s.last_sync,
{
}

/// Clips are fetched from the devices that are online, paired and sharing, in the order
/// of the list, and from no others.
pub proof fn sharing_devices_are_fetched_from(list: Seq<ListedView>, d: ListedView)
    ensures
        targets(Seq::empty()) == Seq::<Seq<char>>::empty(),
        d.online && d.device.paired && d.device.sharing ==> targets(list.push(d)) == targets(
            list,
        ).push(d.device.device_id),
        !d.online || !d.device.paired || !d.device.sharing ==> targets(list.push(d)) == targets(
            list,
        ),
{
    assert(list.push(d).drop_last() =~= list);
}

/// What the user is shown of a device is what is listed of it.
pub proof fn devices_are_shown_as_listed(list: Seq<ListedView>, syncing: Set<Seq<char>>, i: int)
    requires
        0 <= i < list.len(),
    ensures
        dtos(list, syncing).len() == list.len(),
        ({
            let v = dtos(list, syncing)[i];
            let d = list[i];
            &&& v.device_id == d.device.device_id
            &&& v.name == d.device.name
            &&& v.model == d.device.model
            &&& v.host == d.device.host
            &&& v.port == d.device.port
            &&& v.sharing == d.device.sharing
            &&& v.paired == d.device.paired
            &&& v.online == d.online
            &&& v.last_sync == d.last_sync
            &&& v.syncing == syncing.contains(d.device.device_id)
        }),
{
}

/// Every place of the list, the first as well as the last, tells of its own device: it
/// is online where that is seen, paired where that is kept as such, and seen devices
/// have the address that they were seen at.
pub proof fn every_place_tells_of_its_device(
    list: Seq<ListedView>,
    ids: Seq<Seq<char>>,
    s: SettingsView,
    l: Map<Seq<char>, DiscoveredView>,
    i: int,
)
    requires
        is_list(list, ids, s, l),
        0 <= i < list.len(),
    ensures
        list[i] == entry(s, l, ids[i]),
        list[i].online == l.contains_key(ids[i]),
        list[i].device.paired == s.paired.contains_key(ids[i]),
        l.contains_key(ids[i]) ==> list[i].device.host == l[ids[i]].device.host
            && list[i].device.port == l[ids[i]].device.port,
{
}

/// What the user is shown of the state is what the settings say, the devices that are
/// listed, and those that are blocked.
pub proof fn state_is_shown_as_it_is(
    r: LanStateDto,
    v: SharedView,
    after: SharedView,
    now: u64,
    ip: Option<Seq<char>>,
    id: Seq<char>,
)
    requires
        shows_state(r, v, after, now, ip),
    ensures
        r.device_id@ == v.settings.device_id,
        r.device_name@ == v.settings.device_name,
        r.pairing_token@ == v.settings.pairing_token,
        r.server_port == v.settings.server_port,
        r.actual_port == v.actual_port,
        r.server_running == v.server_running,
        r.sharing == v.settings.sharing,
        r.discoverable == v.settings.discoverable,
        r.auto_sync == v.settings.auto_sync,
        r.auto_accept_pair == v.settings.auto_accept_pair,
        ip is Some ==> r.local_ip@ == ip->0,
        ip is None ==> r.local_ip@.len() == 0,
        v.settings.blocked.contains_key(id) ==> exists|i: int|
            0 <= i < r.blocked@.len() && (#[trigger] r.blocked@[i])@.device_id == id
                && r.blocked@[i]@.name == v.settings.blocked[id].name,
        forall|i: int|
            0 <= i < r.blocked@.len() ==> v.settings.blocked.contains_key(
                (#[trigger] r.blocked@[i])@.device_id,
            ),
        after.settings.paired.dom() == v.settings.paired.dom(),
        after.settings.blocked == v.settings.blocked,
{
    if v.settings.blocked.contains_key(id) {
        let i = choose|i: int| 0 <= i < r.blocked@.len() && (#[trigger] r.blocked@[i])@.device_id == id;
        assert(r.blocked@[i]@.name == v.settings.blocked[id].name);
    }
    assert(after.settings.paired.dom() =~= v.settings.paired.dom());
}

} // verus!
