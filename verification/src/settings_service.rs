//! Settings: rows of keys and values, the settings that are kept in memory, and the move of account
//! data out of the rows that are synced.
use vstd::prelude::*;
use vstd::string::*;

use crate::models::{AppSettings, DeviceAppSettings, Setting};
use crate::order::{least_first, order_least_first, place_list, places, sorted};
use crate::text::{opt_text, same, texts};

verus! {

/// The key of the row that holds the synced settings.
pub const APP_SETTINGS_KEY: &'static str = "app_settings";

/// The key of the row that holds the settings of this device.
pub const DEVICE_SETTINGS_KEY: &'static str = "device_settings";

// ---------------------------------------------------------------------------------------------
// In memory
// ---------------------------------------------------------------------------------------------
/// The settings that are kept in memory.
pub struct SettingsCache<L, A> {
    pub app: AppSettings<L, A>,
    pub device: DeviceAppSettings,
}

/// The synced settings that are kept in memory.
pub fn cached_settings<L, A>(cache: &SettingsCache<L, A>) -> (r: &AppSettings<L, A>)
    ensures
        *r == cache.app,
{
    &cache.app
}

/// Replaces the synced settings that are kept in memory.
pub fn update_cached_settings<L, A>(cache: &mut SettingsCache<L, A>, settings: AppSettings<L, A>)
    ensures
        final(cache).app == settings,
        final(cache).device == old(cache).device,
{
    cache.app = settings;
}

/// The settings of this device that are kept in memory.
pub fn cached_device_settings<L, A>(cache: &SettingsCache<L, A>) -> (r: &DeviceAppSettings)
    ensures
        *r == cache.device,
{
    &cache.device
}

/// Replaces the settings of this device that are kept in memory.
pub fn update_cached_device_settings<L, A>(
    cache: &mut SettingsCache<L, A>,
    settings: DeviceAppSettings,
)
    ensures
        final(cache).device == settings,
        final(cache).app == old(cache).app,
{
    cache.device = settings;
}

/// Puts what was read from the rows into memory: first the synced settings, then those of this
/// device. The first error ends it.
pub fn refresh_cache<L, A>(
    cache: &mut SettingsCache<L, A>,
    app: Result<AppSettings<L, A>, String>,
    device: Result<DeviceAppSettings, String>,
) -> (r: Result<(), String>)
    ensures
        match app {
            Err(e) => r == Err::<(), String>(e) && *final(cache) == *old(cache),
            Ok(a) => final(cache).app == a && match device {
                Err(e) => r == Err::<(), String>(e) && final(cache).device == old(cache).device,
                Ok(d) => r is Ok && final(cache).device == d,
            },
        },
{
    match app {
        Ok(a) => {
            update_cached_settings(cache, a);
        },
        Err(e) => {
            return Err(e);
        },
    }
    match device {
        Ok(d) => {
            update_cached_device_settings(cache, d);
        },
        Err(e) => {
            return Err(e);
        },
    }
    Ok(())
}

// ---------------------------------------------------------------------------------------------
// Rows
// ---------------------------------------------------------------------------------------------
/// The value of the first row from `i` on that has a key.
pub open spec fn setting_from(rows: Seq<Setting>, key: Seq<char>, i: int) -> Option<Seq<char>>
    decreases rows.len() - i,
{
    if i < 0 || i >= rows.len() {
        None
    } else if rows[i].key@ == key {
        Some(rows[i].value@)
    } else {
        setting_from(rows, key, i + 1)
    }
}

/// The value of a setting.
pub open spec fn setting_of(rows: Seq<Setting>, key: Seq<char>) -> Option<Seq<char>> {
    setting_from(rows, key, 0)
}

/// Whether no key stands in two rows.
pub open spec fn keys_differ(rows: Seq<Setting>) -> bool {
    forall|i: int, j: int|
        0 <= i < j < rows.len() ==> (#[trigger] rows[i]).key@ != (#[trigger] rows[j]).key@
}

/// A value is that of a row with the key, and there is none where no row has it.
proof fn lemma_setting(rows: Seq<Setting>, key: Seq<char>, i: int)
    requires
        0 <= i,
    ensures
        match setting_from(rows, key, i) {
            Some(v) => exists|k: int|
                i <= k < rows.len() && (#[trigger] rows[k]).key@ == key && rows[k].value@ == v,
            None => forall|k: int| i <= k < rows.len() ==> (#[trigger] rows[k]).key@ != key,
        },
    decreases rows.len() - i,
{
    if i < rows.len() {
        if rows[i].key@ == key {
            assert(rows[i].value@ == setting_from(rows, key, i)->0);
        } else {
            lemma_setting(rows, key, i + 1);
            if setting_from(rows, key, i + 1) is Some {
                let v = setting_from(rows, key, i + 1)->0;
                let k = choose|k: int|
                    i + 1 <= k < rows.len() && (#[trigger] rows[k]).key@ == key && rows[k].value@
                        == v;
                assert(rows[k].key@ == key);
            }
        }
    }
}

/// Where no key stands in two rows, a row gives the value of its key.
proof fn lemma_row_counts(rows: Seq<Setting>, k: int)
    requires
        keys_differ(rows),
        0 <= k < rows.len(),
    ensures
        setting_of(rows, rows[k].key@) == Some(rows[k].value@),
{
    lemma_setting(rows, rows[k].key@, 0);
    let key = rows[k].key@;
    if setting_of(rows, key) is None {
        assert(rows[k].key@ != key);
    } else {
        let v = setting_of(rows, key)->0;
        let j = choose|j: int|
            0 <= j < rows.len() && (#[trigger] rows[j]).key@ == key && rows[j].value@ == v;
        if j < k {
            assert(rows[j].key@ != rows[k].key@);
        } else if k < j {
            assert(rows[k].key@ != rows[j].key@);
        }
    }
}

/// The values of rows: a row counts where its key is asked for.
proof fn lemma_same_settings(a: Seq<Setting>, b: Seq<Setting>, key: Seq<char>)
    requires
        keys_differ(a),
        keys_differ(b),
        forall|i: int|
            0 <= i < a.len() && (#[trigger] a[i]).key@ == key ==> exists|j: int|
                0 <= j < b.len() && (#[trigger] b[j]).key@ == key && b[j].value@ == a[i].value@,
        forall|j: int|
            0 <= j < b.len() && (#[trigger] b[j]).key@ == key ==> exists|i: int|
                0 <= i < a.len() && (#[trigger] a[i]).key@ == key && a[i].value@ == b[j].value@,
    ensures
        setting_of(a, key) == setting_of(b, key),
{
    lemma_setting(a, key, 0);
    lemma_setting(b, key, 0);
    if setting_of(a, key) is Some {
        let i = choose|i: int|
            0 <= i < a.len() && (#[trigger] a[i]).key@ == key && a[i].value@ == setting_of(
                a,
                key,
            )->0;
        assert(a[i].key@ == key);
        let j = choose|j: int|
            0 <= j < b.len() && (#[trigger] b[j]).key@ == key && b[j].value@ == a[i].value@;
        lemma_row_counts(b, j);
    } else if setting_of(b, key) is Some {
        let j = choose|j: int|
            0 <= j < b.len() && (#[trigger] b[j]).key@ == key && b[j].value@ == setting_of(
                b,
                key,
            )->0;
        assert(b[j].key@ == key);
        let i = choose|i: int|
            0 <= i < a.len() && (#[trigger] a[i]).key@ == key && a[i].value@ == b[j].value@;
        assert(a[i].key@ != key);
    }
}

fn find_setting(rows: &Vec<Setting>, key: &str) -> (r: Option<usize>)
    ensures
        match r {
            Some(k) => k < rows.len() && rows@[k as int].key@ == key@ && setting_of(rows@, key@)
                == Some(rows@[k as int].value@),
            None => setting_of(rows@, key@) is None && forall|k: int|
                0 <= k < rows.len() ==> (#[trigger] rows@[k]).key@ != key@,
        },
{
    let mut i: usize = 0;
    while i < rows.len()
        invariant
            i <= rows.len(),
            setting_of(rows@, key@) == setting_from(rows@, key@, i as int),
            forall|k: int| 0 <= k < i ==> (#[trigger] rows@[k]).key@ != key@,
        decreases rows.len() - i,
    {
        if same(rows[i].key.as_str(), key) {
            return Some(i);
        }
        i += 1;
    }
    None
}

/// The value of a setting.
pub fn get_setting(rows: &Vec<Setting>, key: &str) -> (r: Option<String>)
    ensures
        opt_text(r) == setting_of(rows@, key@),
{
    match find_setting(rows, key) {
        Some(k) => Some(rows[k].value.clone()),
        None => None,
    }
}

/// Sets a setting: its row is changed, or added where there is none.
pub fn set_setting(rows: &mut Vec<Setting>, key: &str, value: &str, now: &str)
    requires
        keys_differ(old(rows)@),
    ensures
        keys_differ(final(rows)@),
        setting_of(final(rows)@, key@) == Some(value@),
        forall|k: Seq<char>|
            k != key@ ==> setting_of(final(rows)@, k) == #[trigger] setting_of(old(rows)@, k),
        exists|i: int|
            0 <= i < final(rows)@.len() && (#[trigger] final(rows)@[i]).key@ == key@ && final(rows)@[i].updated_at@ == now@,
        final(rows)@.len() == old(rows)@.len() + (if setting_of(old(rows)@, key@) is None {
            1nat
        } else {
            0nat
        }),
        forall|i: int|
            0 <= i < old(rows)@.len() && old(rows)@[i].key@ != key@ ==> #[trigger] final(rows)@[i]
                == old(rows)@[i],
{
    let ghost before = rows@;
    let found = find_setting(rows, key);
    let row = Setting { key: key.to_owned(), value: value.to_owned(), updated_at: now.to_owned() };
    let ghost at: int;
    match found {
        Some(k) => {
            rows.set(k, row);
            proof {
                at = k as int;
            }
        },
        None => {
            rows.push(row);
            proof {
                at = before.len() as int;
            }
        },
    }
    proof {
        let after = rows@;
        assert(after[at].key@ == key@);
        assert forall|i: int, j: int| 0 <= i < j < after.len() implies (#[trigger] after[i]).key@
            != (#[trigger] after[j]).key@ by {
            if i != at && j != at {
                assert(before[i].key@ != before[j].key@);
            } else if j == at && at < before.len() {
                assert(before[i].key@ != before[at].key@);
            } else if i == at {
                assert(before[at].key@ != before[j].key@);
            }
        }
        lemma_row_counts(after, at);
        assert forall|k: Seq<char>| k != key@ implies setting_of(after, k) == #[trigger] setting_of(
            before,
            k,
        ) by {
            assert forall|i: int| 0 <= i < after.len() && (#[trigger] after[i]).key@ == k implies (
            exists|j: int|
                0 <= j < before.len() && (#[trigger] before[j]).key@ == k && before[j].value@
                    == after[i].value@) by {
                assert(before[i].key@ == k);
            }
            assert forall|j: int| 0 <= j < before.len() && (#[trigger] before[j]).key@
                == k implies (exists|i: int|
                0 <= i < after.len() && (#[trigger] after[i]).key@ == k && after[i].value@
                    == before[j].value@) by {
                assert(after[j].key@ == k);
            }
            lemma_same_settings(after, before, k);
        }
    }
}

/// Takes a setting out.
pub fn delete_setting(rows: &mut Vec<Setting>, key: &str)
    requires
        keys_differ(old(rows)@),
    ensures
        keys_differ(final(rows)@),
        setting_of(final(rows)@, key@) is None,
        forall|k: Seq<char>|
            k != key@ ==> setting_of(final(rows)@, k) == #[trigger] setting_of(old(rows)@, k),
{
    let ghost before = rows@;
    match find_setting(rows, key) {
        Some(at) => {
            let _ = rows.remove(at);
            proof {
                let after = rows@;
                assert forall|i: int, j: int| 0 <= i < j < after.len() implies (
                #[trigger] after[i]).key@ != (#[trigger] after[j]).key@ by {
                    let a = if i < at {
                        i
                    } else {
                        i + 1
                    };
                    let b = if j < at {
                        j
                    } else {
                        j + 1
                    };
                    assert(after[i] == before[a] && after[j] == before[b]);
                    assert(before[a].key@ != before[b].key@);
                }
                lemma_setting(after, key@, 0);
                if setting_of(after, key@) is Some {
                    let v = setting_of(after, key@)->0;
                    let i = choose|i: int|
                        0 <= i < after.len() && (#[trigger] after[i]).key@ == key@
                            && after[i].value@ == v;
                    if i < at {
                        assert(after[i] == before[i]);
                        assert(before[i].key@ != before[at as int].key@);
                    } else {
                        assert(after[i] == before[i + 1]);
                        assert(before[at as int].key@ != before[i + 1].key@);
                    }
                }
                assert forall|k: Seq<char>| k != key@ implies setting_of(after, k)
                    == #[trigger] setting_of(before, k) by {
                    assert forall|i: int| 0 <= i < after.len() && (#[trigger] after[i]).key@
                        == k implies (exists|j: int|
                        0 <= j < before.len() && (#[trigger] before[j]).key@ == k
                            && before[j].value@ == after[i].value@) by {
                        let j = if i < at {
                            i
                        } else {
                            i + 1
                        };
                        assert(after[i] == before[j]);
                    }
                    assert forall|j: int| 0 <= j < before.len() && (#[trigger] before[j]).key@
                        == k implies (exists|i: int|
                        0 <= i < after.len() && (#[trigger] after[i]).key@ == k && after[i].value@
                            == before[j].value@) by {
                        let i = if j < at {
                            j
                        } else {
                            j - 1
                        };
                        assert(j != at);
                        assert(after[i] == before[j]);
                    }
                    lemma_same_settings(after, before, k);
                }
            }
        },
        None => {},
    }
}

/// The keys of rows.
pub open spec fn row_keys(rows: Seq<Setting>) -> Seq<Seq<char>> {
    Seq::new(rows.len(), |i: int| rows[i].key@)
}

/// The places of all settings, by their keys.
pub fn get_all_settings(rows: &Vec<Setting>) -> (r: Vec<usize>)
    ensures
        place_list(r@) == sorted(places(rows@.len()), least_first(row_keys(rows@))),
        r.len() == rows.len(),
        forall|i: int| 0 <= i < r.len() ==> #[trigger] r@[i] < rows.len(),
{
    let mut keys: Vec<String> = Vec::new();
    let mut i: usize = 0;
    while i < rows.len()
        invariant
            i <= rows.len(),
            keys.len() == i,
            forall|k: int| 0 <= k < i ==> (#[trigger] keys@[k])@ == rows@[k].key@,
        decreases rows.len() - i,
    {
        keys.push(rows[i].key.clone());
        i += 1;
    }
    assert(texts(keys@) =~= row_keys(rows@));
    order_least_first(&keys)
}

// ---------------------------------------------------------------------------------------------
// Account data
// ---------------------------------------------------------------------------------------------
/// The keys of account data, which belong to one device.
pub open spec fn account_keys() -> Seq<Seq<char>> {
    seq![
        "account.relay_url"@,
        "account.token"@,
        "account.user_id"@,
        "account.email"@,
        "account.device_name"@,
        "account.sync_key"@,
    ]
}

/// Whether a setting says something.
pub open spec fn says_something(o: Option<Seq<char>>) -> bool {
    o is Some && o->0.len() > 0
}

/// What a synced setting is once account data was moved: nothing that says something is left of it.
pub open spec fn synced_after(key: Seq<char>, was: Option<Seq<char>>) -> Option<Seq<char>> {
    if account_keys().contains(key) && says_something(was) {
        None
    } else {
        was
    }
}

/// What a setting of this device is once account data was moved: what it said, else what was synced.
pub open spec fn device_after(
    key: Seq<char>,
    was: Option<Seq<char>>,
    synced: Option<Seq<char>>,
) -> Option<Seq<char>> {
    if account_keys().contains(key) && says_something(synced) && !says_something(was) {
        synced
    } else {
        was
    }
}

fn move_setting(synced: &mut Vec<Setting>, device: &mut Vec<Setting>, key: &str, now: &str)
    requires
        keys_differ(old(synced)@),
        keys_differ(old(device)@),
    ensures
        keys_differ(final(synced)@),
        keys_differ(final(device)@),
        forall|k: Seq<char>|
            k != key@ ==> setting_of(final(synced)@, k) == #[trigger] setting_of(old(synced)@, k),
        forall|k: Seq<char>|
            k != key@ ==> setting_of(final(device)@, k) == #[trigger] setting_of(old(device)@, k),
        setting_of(final(synced)@, key@) == (if says_something(setting_of(old(synced)@, key@)) {
            None
        } else {
            setting_of(old(synced)@, key@)
        }),
        setting_of(final(device)@, key@) == (if says_something(setting_of(old(synced)@, key@))
            && !says_something(setting_of(old(device)@, key@)) {
            setting_of(old(synced)@, key@)
        } else {
            setting_of(old(device)@, key@)
        }),
{
    let value = match get_setting(synced, key) {
        Some(v) => v,
        None => {
            return;
        },
    };
    if value.as_str().is_empty() {
        return;
    }
    let already = match get_setting(device, key) {
        Some(v) => !v.as_str().is_empty(),
        None => false,
    };
    if !already {
        set_setting(device, key, value.as_str(), now);
    }
    delete_setting(synced, key);
}

/// Moves account data from the synced settings to those of this device. What this device says already
/// stays, and what was synced is taken out either way.
pub fn migrate_legacy_account_settings(
    synced: &mut Vec<Setting>,
    device: &mut Vec<Setting>,
    now: &str,
)
    requires
        keys_differ(old(synced)@),
        keys_differ(old(device)@),
    ensures
        keys_differ(final(synced)@),
        keys_differ(final(device)@),
        forall|k: Seq<char>|
            setting_of(final(synced)@, k) == synced_after(
                k,
                #[trigger] setting_of(old(synced)@, k),
            ),
        forall|k: Seq<char>|
            setting_of(final(device)@, k) == device_after(
                k,
                #[trigger] setting_of(old(device)@, k),
                setting_of(old(synced)@, k),
            ),
{
    let keys = [
        "account.relay_url",
        "account.token",
        "account.user_id",
        "account.email",
        "account.device_name",
        "account.sync_key",
    ];
    let ghost all = account_keys();
    let ghost s0 = synced@;
    let ghost d0 = device@;
    assert(forall|k: int| 0 <= k < 6 ==> keys@[k]@ == all[k]);
    let mut i: usize = 0;
    while i < 6
        invariant
            i <= 6,
            all == account_keys(),
            all.len() == 6,
            forall|k: int| 0 <= k < 6 ==> keys@[k]@ == all[k],
            s0 == old(synced)@,
            d0 == old(device)@,
            keys_differ(synced@),
            keys_differ(device@),
            forall|k: Seq<char>|
                setting_of(synced@, k) == (if all.take(i as int).contains(k) && says_something(
                    #[trigger] setting_of(s0, k),
                ) {
                    None
                } else {
                    setting_of(s0, k)
                }),
            forall|k: Seq<char>|
                setting_of(device@, k) == (if all.take(i as int).contains(k) && says_something(
                    setting_of(s0, k),
                ) && !says_something(#[trigger] setting_of(d0, k)) {
                    setting_of(s0, k)
                } else {
                    setting_of(d0, k)
                }),
        decreases 6 - i,
    {
        let ghost s1 = synced@;
        let ghost d1 = device@;
        let key = keys[i];
        move_setting(synced, device, key, now);
        proof {
            let was = all.take(i as int);
            let is = all.take(i + 1);
            assert(is =~= was.push(key@));
            assert forall|k: Seq<char>| is.contains(k) == (was.contains(k) || k == key@) by {
                if was.contains(k) {
                    let j = choose|j: int| 0 <= j < was.len() && was[j] == k;
                    assert(is[j] == k);
                }
                if k == key@ {
                    assert(is[i as int] == k);
                }
                if is.contains(k) {
                    let j = choose|j: int| 0 <= j < is.len() && is[j] == k;
                    if j < i {
                        assert(was[j] == k);
                    }
                }
            }
            assert forall|k: Seq<char>| setting_of(synced@, k) == (if is.contains(k)
                && says_something(#[trigger] setting_of(s0, k)) {
                None
            } else {
                setting_of(s0, k)
            }) by {
                assert(is.contains(k) == (was.contains(k) || k == key@));
                if k != key@ {
                    assert(setting_of(synced@, k) == setting_of(s1, k));
                }
            }
            assert forall|k: Seq<char>| setting_of(device@, k) == (if is.contains(k)
                && says_something(setting_of(s0, k)) && !says_something(
                #[trigger] setting_of(d0, k),
            ) {
                setting_of(s0, k)
            } else {
                setting_of(d0, k)
            }) by {
                assert(is.contains(k) == (was.contains(k) || k == key@));
                assert(setting_of(s1, k) == (if was.contains(k) && says_something(
                    setting_of(s0, k),
                ) {
                    None
                } else {
                    setting_of(s0, k)
                }));
                if k != key@ {
                    assert(setting_of(device@, k) == setting_of(d1, k));
                }
            }
        }
        i += 1;
    }
    assert(all.take(6) =~= all);
}

/// Once account data was moved, no synced setting says anything of the account, and nothing that this
/// device or the synced settings said of it is lost.
pub proof fn law_account_data_is_not_synced(
    key: Seq<char>,
    synced: Option<Seq<char>>,
    device: Option<Seq<char>>,
)
    requires
        account_keys().contains(key),
    ensures
        !says_something(synced_after(key, synced)),
        says_something(synced) || says_something(device) ==> says_something(
            device_after(key, device, synced),
        ),
        says_something(device) ==> device_after(key, device, synced) == device,
{
}

} // verus!
