//! The two build-scoped tables: the merged configuration (section, key,
//! value; a later import overwrites) and the resource manifest (destination
//! path to source path; the first registration wins).

use vstd::prelude::*;

verus! {

// ---------------------------------------------------------------------------
// Configuration table
// ---------------------------------------------------------------------------

#[derive(Debug)]
pub struct ConfigEntry {
    pub key: Vec<u8>,
    pub value: Vec<u8>,
}

pub ghost struct SpConfigEntry {
    pub key: Seq<u8>,
    pub value: Seq<u8>,
}

impl View for ConfigEntry {
    type V = SpConfigEntry;

    open spec fn view(&self) -> SpConfigEntry {
        SpConfigEntry { key: self.key@, value: self.value@ }
    }
}

#[derive(Debug)]
pub struct ConfigSection {
    pub name: Option<Vec<u8>>,
    pub entries: Vec<ConfigEntry>,
}

pub ghost struct SpConfigSection {
    pub name: Option<Seq<u8>>,
    pub entries: Seq<SpConfigEntry>,
}

pub open spec fn opt_bytes_view(v: Option<Vec<u8>>) -> Option<Seq<u8>> {
    match v {
        Some(b) => Some(b@),
        None => None,
    }
}

impl View for ConfigSection {
    type V = SpConfigSection;

    open spec fn view(&self) -> SpConfigSection {
        SpConfigSection {
            name: opt_bytes_view(self.name),
            entries: self.entries@.map_values(|e: ConfigEntry| e@),
        }
    }
}

/// First index at or after `i` whose section has this name.
pub open spec fn spec_find_sec(secs: Seq<SpConfigSection>, name: Option<Seq<u8>>, i: int) -> Option<
    int,
>
    decreases secs.len() - i,
{
    if !(0 <= i < secs.len()) {
        None
    } else if secs[i].name == name {
        Some(i)
    } else {
        spec_find_sec(secs, name, i + 1)
    }
}

/// First index at or after `i` whose entry has this key.
pub open spec fn spec_find_key(entries: Seq<SpConfigEntry>, key: Seq<u8>, i: int) -> Option<int>
    decreases entries.len() - i,
{
    if !(0 <= i < entries.len()) {
        None
    } else if entries[i].key == key {
        Some(i)
    } else {
        spec_find_key(entries, key, i + 1)
    }
}

/// The value stored under a section and key, if any.
pub open spec fn spec_tbl_get(
    secs: Seq<SpConfigSection>,
    name: Option<Seq<u8>>,
    key: Seq<u8>,
) -> Option<Seq<u8>> {
    match spec_find_sec(secs, name, 0) {
        None => None,
        Some(i) => match spec_find_key(secs[i].entries, key, 0) {
            None => None,
            Some(j) => Some(secs[i].entries[j].value),
        },
    }
}

proof fn lemma_find_sec_bounds(secs: Seq<SpConfigSection>, name: Option<Seq<u8>>, i: int)
    requires
        0 <= i,
    ensures
        spec_find_sec(secs, name, i) matches Some(k) ==> i <= k < secs.len() && secs[k].name
            == name,
    decreases secs.len() - i,
{
    if 0 <= i < secs.len() && secs[i].name != name {
        lemma_find_sec_bounds(secs, name, i + 1);
    }
}

proof fn lemma_find_key_bounds(entries: Seq<SpConfigEntry>, key: Seq<u8>, i: int)
    requires
        0 <= i,
    ensures
        spec_find_key(entries, key, i) matches Some(k) ==> i <= k < entries.len()
            && entries[k].key == key,
    decreases entries.len() - i,
{
    if 0 <= i < entries.len() && entries[i].key != key {
        lemma_find_key_bounds(entries, key, i + 1);
    }
}

/// Finding a section looks at names only.
proof fn lemma_find_sec_same_names(
    a: Seq<SpConfigSection>,
    b: Seq<SpConfigSection>,
    name: Option<Seq<u8>>,
    i: int,
)
    requires
        a.len() == b.len(),
        forall|k: int| 0 <= k < a.len() ==> a[k].name == b[k].name,
    ensures
        spec_find_sec(a, name, i) == spec_find_sec(b, name, i),
    decreases a.len() - i,
{
    if 0 <= i < a.len() {
        lemma_find_sec_same_names(a, b, name, i + 1);
    }
}

/// Finding a key looks at keys only.
proof fn lemma_find_key_same_keys(
    a: Seq<SpConfigEntry>,
    b: Seq<SpConfigEntry>,
    key: Seq<u8>,
    i: int,
)
    requires
        a.len() == b.len(),
        forall|k: int| 0 <= k < a.len() ==> a[k].key == b[k].key,
    ensures
        spec_find_key(a, key, i) == spec_find_key(b, key, i),
    decreases a.len() - i,
{
    if 0 <= i < a.len() {
        lemma_find_key_same_keys(a, b, key, i + 1);
    }
}

/// Appending entries does not change where an existing key is found, and a
/// missing key is found at the appended position exactly when it matches.
proof fn lemma_find_key_push(entries: Seq<SpConfigEntry>, key: Seq<u8>, e: SpConfigEntry, i: int)
    requires
        0 <= i <= entries.len(),
    ensures
        spec_find_key(entries, key, i) matches Some(k) ==> spec_find_key(
            entries.push(e),
            key,
            i,
        ) == Some(k),
        spec_find_key(entries, key, i) is None && e.key == key ==> spec_find_key(
            entries.push(e),
            key,
            i,
        ) == Some(entries.len() as int),
        spec_find_key(entries, key, i) is None && e.key != key ==> spec_find_key(
            entries.push(e),
            key,
            i,
        ) is None,
    decreases entries.len() - i,
{
    if i < entries.len() {
        lemma_find_key_push(entries, key, e, i + 1);
    } else {
        assert(spec_find_key(entries.push(e), key, i + 1) is None);
    }
}

proof fn lemma_find_sec_push(
    secs: Seq<SpConfigSection>,
    name: Option<Seq<u8>>,
    sc: SpConfigSection,
    i: int,
)
    requires
        0 <= i <= secs.len(),
    ensures
        spec_find_sec(secs, name, i) matches Some(k) ==> spec_find_sec(secs.push(sc), name, i)
            == Some(k),
        spec_find_sec(secs, name, i) is None && sc.name == name ==> spec_find_sec(
            secs.push(sc),
            name,
            i,
        ) == Some(secs.len() as int),
        spec_find_sec(secs, name, i) is None && sc.name != name ==> spec_find_sec(
            secs.push(sc),
            name,
            i,
        ) is None,
    decreases secs.len() - i,
{
    if i < secs.len() {
        lemma_find_sec_push(secs, name, sc, i + 1);
    } else {
        assert(spec_find_sec(secs.push(sc), name, i + 1) is None);
    }
}

fn opt_name_eq(a: &Option<Vec<u8>>, b: &Option<Vec<u8>>) -> (r: bool)
    ensures
        r == (opt_bytes_view(*a) == opt_bytes_view(*b)),
{
    match (a, b) {
        (None, None) => true,
        (Some(x), Some(y)) => crate::textutil::bytes_eq(x.as_slice(), y.as_slice()),
        _ => false,
    }
}

/// The merged configuration: ordered sections of ordered key/value entries.
pub struct ConfigTable {
    sections: Vec<ConfigSection>,
}

impl View for ConfigTable {
    type V = Seq<SpConfigSection>;

    closed spec fn view(&self) -> Seq<SpConfigSection> {
        self.sections@.map_values(|s: ConfigSection| s@)
    }
}

impl ConfigTable {
    pub fn new() -> (r: Self)
        ensures
            r@ == Seq::<SpConfigSection>::empty(),
    {
        let r = ConfigTable { sections: Vec::new() };
        proof {
            assert(r@ =~= Seq::<SpConfigSection>::empty());
        }
        r
    }

    pub fn sections(&self) -> (r: &Vec<ConfigSection>)
        ensures
            r@.map_values(|s: ConfigSection| s@) == self@,
    {
        &self.sections
    }

    /// Store `value` under `section` and `key`: the value read back under
    /// that pair is the new one, every other pair is unchanged, and section
    /// and entry order is kept (a new section or key goes to the end).
    pub fn set(&mut self, section: Option<Vec<u8>>, key: Vec<u8>, value: Vec<u8>)
        ensures
            spec_tbl_get(final(self)@, opt_bytes_view(section), key@) == Some(value@),
            forall|n2: Option<Seq<u8>>, k2: Seq<u8>|
                !(n2 == opt_bytes_view(section) && k2 == key@) ==> #[trigger] spec_tbl_get(
                    final(self)@,
                    n2,
                    k2,
                ) == spec_tbl_get(old(self)@, n2, k2),
    {
        let ghost oldsecs = self@;
        let n = self.sections.len();
        let mut i: usize = 0;
        let mut found: bool = false;
        while i < n && !found
            invariant
                0 <= i <= n == self@.len(),
                self@ == oldsecs,
                !found ==> spec_find_sec(self@, opt_bytes_view(section), 0) == spec_find_sec(
                    self@,
                    opt_bytes_view(section),
                    i as int,
                ),
                found ==> (0 <= i < n && spec_find_sec(self@, opt_bytes_view(section), 0) == Some(
                    i as int,
                )),
            decreases n - i + if found {
                0int
            } else {
                1int
            },
        {
            if opt_name_eq(&self.sections[i].name, &section) {
                found = true;
            } else {
                i += 1;
            }
        }
        if !found {
            // a new section at the end, with the single new entry
            let mut entries: Vec<ConfigEntry> = Vec::new();
            entries.push(ConfigEntry { key, value });
            let sec = ConfigSection { name: section, entries };
            let ghost scv = sec@;
            self.sections.push(sec);
            assert(self@ =~= oldsecs.push(scv));
            proof {
                let name = opt_bytes_view(section);
                assert(scv.entries =~= seq![SpConfigEntry { key: key@, value: value@ }]);
                lemma_find_sec_push(oldsecs, name, scv, 0);
                assert(spec_find_sec(self@, name, 0) == Some(oldsecs.len() as int));
                assert(scv.entries[0].key == key@);
                assert(spec_tbl_get(self@, name, key@) == Some(value@));
                assert forall|n2: Option<Seq<u8>>, k2: Seq<u8>|
                    !(n2 == name && k2 == key@) implies #[trigger] spec_tbl_get(self@, n2, k2)
                    == spec_tbl_get(oldsecs, n2, k2) by {
                    lemma_find_sec_push(oldsecs, n2, scv, 0);
                    lemma_find_sec_bounds(oldsecs, n2, 0);
                    lemma_find_sec_bounds(self@, n2, 0);
                    if n2 == name {
                        if spec_find_sec(oldsecs, n2, 0) is None {
                            // the new single-entry section serves n2; k2 != key misses
                            assert(spec_find_key(scv.entries, k2, 1) is None);
                            assert(spec_find_key(scv.entries, k2, 0) is None);
                        }
                    }
                }
            }
        } else {
            // rework the found section in place
            let mut sec = self.sections.remove(i);
            let ghost oldsec = sec@;
            let m = sec.entries.len();
            let mut j: usize = 0;
            let mut kfound: bool = false;
            while j < m && !kfound
                invariant
                    0 <= j <= m == sec@.entries.len(),
                    sec@ == oldsec,
                    !kfound ==> spec_find_key(sec@.entries, key@, 0) == spec_find_key(
                        sec@.entries,
                        key@,
                        j as int,
                    ),
                    kfound ==> (0 <= j < m && spec_find_key(sec@.entries, key@, 0) == Some(
                        j as int,
                    )),
                decreases m - j + if kfound {
                    0int
                } else {
                    1int
                },
            {
                if crate::textutil::bytes_eq(sec.entries[j].key.as_slice(), key.as_slice()) {
                    kfound = true;
                } else {
                    j += 1;
                }
            }
            if kfound {
                sec.entries[j] = ConfigEntry { key, value };
            } else {
                sec.entries.push(ConfigEntry { key, value });
            }
            let ghost newsec = sec@;
            self.sections.insert(i, sec);
            assert(self@ =~= oldsecs.update(i as int, newsec));
            proof {
                let name = opt_bytes_view(section);
                assert(oldsec == oldsecs[i as int]);
                assert(self@[i as int] == newsec);
                assert(newsec.name == oldsecs[i as int].name);
                assert(forall|k: int|
                    0 <= k < oldsecs.len() ==> oldsecs[k].name == #[trigger] self@[k].name);
                if kfound {
                    lemma_find_key_bounds(oldsec.entries, key@, 0);
                    assert(newsec.entries =~= oldsec.entries.update(
                        j as int,
                        SpConfigEntry { key: key@, value: value@ },
                    ));
                    assert(forall|k: int|
                        0 <= k < oldsec.entries.len() ==> oldsec.entries[k].key
                            == #[trigger] newsec.entries[k].key);
                } else {
                    assert(newsec.entries =~= oldsec.entries.push(
                        SpConfigEntry { key: key@, value: value@ },
                    ));
                }
                lemma_find_sec_same_names(oldsecs, self@, name, 0);
                lemma_find_sec_bounds(oldsecs, name, 0);
                // the new value is read back
                if kfound {
                    lemma_find_key_same_keys(oldsec.entries, newsec.entries, key@, 0);
                    lemma_find_key_bounds(newsec.entries, key@, 0);
                    assert(spec_tbl_get(self@, name, key@) == Some(value@));
                } else {
                    lemma_find_key_push(
                        oldsec.entries,
                        key@,
                        SpConfigEntry { key: key@, value: value@ },
                        0,
                    );
                    assert(spec_tbl_get(self@, name, key@) == Some(value@));
                }
                // every other pair is unchanged
                assert forall|n2: Option<Seq<u8>>, k2: Seq<u8>|
                    !(n2 == name && k2 == key@) implies #[trigger] spec_tbl_get(self@, n2, k2)
                    == spec_tbl_get(oldsecs, n2, k2) by {
                    lemma_find_sec_same_names(oldsecs, self@, n2, 0);
                    lemma_find_sec_bounds(oldsecs, n2, 0);
                    match spec_find_sec(oldsecs, n2, 0) {
                        None => {},
                        Some(i2) => {
                            if i2 == i as int {
                                assert(n2 == name);
                                assert(k2 != key@);
                                if kfound {
                                    lemma_find_key_same_keys(
                                        oldsec.entries,
                                        newsec.entries,
                                        k2,
                                        0,
                                    );
                                    lemma_find_key_bounds(oldsec.entries, k2, 0);
                                    lemma_find_key_bounds(newsec.entries, k2, 0);
                                    match spec_find_key(oldsec.entries, k2, 0) {
                                        None => {},
                                        Some(j2) => {
                                            assert(oldsec.entries[j2].key == k2);
                                            assert(j2 != j as int);
                                            assert(newsec.entries[j2].value
                                                == oldsec.entries[j2].value);
                                        },
                                    }
                                } else {
                                    lemma_find_key_push(
                                        oldsec.entries,
                                        k2,
                                        SpConfigEntry { key: key@, value: value@ },
                                        0,
                                    );
                                    lemma_find_key_bounds(oldsec.entries, k2, 0);
                                }
                            } else {
                                assert(self@[i2] == oldsecs[i2]);
                            }
                        },
                    }
                }
            }
        }
    }
}

// ---------------------------------------------------------------------------
// Resource manifest
// ---------------------------------------------------------------------------

#[derive(Debug)]
pub struct ResourceEntry {
    pub dest: Vec<u8>,
    pub source: Vec<u8>,
}

pub ghost struct SpResourceEntry {
    pub dest: Seq<u8>,
    pub source: Seq<u8>,
}

impl View for ResourceEntry {
    type V = SpResourceEntry;

    open spec fn view(&self) -> SpResourceEntry {
        SpResourceEntry { dest: self.dest@, source: self.source@ }
    }
}

/// First index at or after `i` whose entry has this destination.
pub open spec fn spec_find_dest(entries: Seq<SpResourceEntry>, dest: Seq<u8>, i: int) -> Option<int>
    decreases entries.len() - i,
{
    if !(0 <= i < entries.len()) {
        None
    } else if entries[i].dest == dest {
        Some(i)
    } else {
        spec_find_dest(entries, dest, i + 1)
    }
}

/// The source registered under a destination, if any.
pub open spec fn spec_manifest_get(entries: Seq<SpResourceEntry>, dest: Seq<u8>) -> Option<Seq<u8>> {
    match spec_find_dest(entries, dest, 0) {
        None => None,
        Some(i) => Some(entries[i].source),
    }
}

pub proof fn lemma_find_dest_bounds(entries: Seq<SpResourceEntry>, dest: Seq<u8>, i: int)
    requires
        0 <= i,
    ensures
        spec_find_dest(entries, dest, i) matches Some(k) ==> i <= k < entries.len()
            && entries[k].dest == dest,
    decreases entries.len() - i,
{
    if 0 <= i < entries.len() && entries[i].dest != dest {
        lemma_find_dest_bounds(entries, dest, i + 1);
    }
}

pub proof fn lemma_find_dest_push(
    entries: Seq<SpResourceEntry>,
    dest: Seq<u8>,
    e: SpResourceEntry,
    i: int,
)
    requires
        0 <= i <= entries.len(),
    ensures
        spec_find_dest(entries, dest, i) matches Some(k) ==> spec_find_dest(
            entries.push(e),
            dest,
            i,
        ) == Some(k),
        spec_find_dest(entries, dest, i) is None && e.dest == dest ==> spec_find_dest(
            entries.push(e),
            dest,
            i,
        ) == Some(entries.len() as int),
        spec_find_dest(entries, dest, i) is None && e.dest != dest ==> spec_find_dest(
            entries.push(e),
            dest,
            i,
        ) is None,
    decreases entries.len() - i,
{
    if i < entries.len() {
        lemma_find_dest_push(entries, dest, e, i + 1);
    } else {
        assert(spec_find_dest(entries.push(e), dest, i + 1) is None);
    }
}

/// The manifest of files to package: destination path to source path, in
/// registration order; the first registration of a destination wins.
pub struct ResourceManifest {
    entries: Vec<ResourceEntry>,
}

impl View for ResourceManifest {
    type V = Seq<SpResourceEntry>;

    closed spec fn view(&self) -> Seq<SpResourceEntry> {
        self.entries@.map_values(|e: ResourceEntry| e@)
    }
}

impl ResourceManifest {
    pub fn new() -> (r: Self)
        ensures
            r@ == Seq::<SpResourceEntry>::empty(),
    {
        let r = ResourceManifest { entries: Vec::new() };
        proof {
            assert(r@ =~= Seq::<SpResourceEntry>::empty());
        }
        r
    }

    pub fn entries(&self) -> (r: &Vec<ResourceEntry>)
        ensures
            r@.map_values(|e: ResourceEntry| e@) == self@,
    {
        &self.entries
    }

    pub fn contains_dest(&self, dest: &[u8]) -> (r: bool)
        ensures
            r == (spec_manifest_get(self@, dest@) is Some),
    {
        let n = self.entries.len();
        let mut i: usize = 0;
        while i < n
            invariant
                0 <= i <= n == self@.len(),
                spec_find_dest(self@, dest@, 0) == spec_find_dest(self@, dest@, i as int),
            decreases n - i,
        {
            if crate::textutil::bytes_eq(self.entries[i].dest.as_slice(), dest) {
                return true;
            }
            i += 1;
        }
        false
    }

    /// Register a destination: if it is already present the manifest is
    /// unchanged (the first registration wins); otherwise the pair is
    /// appended. Returns whether the pair was added.
    pub fn insert_first_wins(&mut self, dest: Vec<u8>, source: Vec<u8>) -> (added: bool)
        ensures
            added == (spec_manifest_get(old(self)@, dest@) is None),
            added ==> final(self)@ == old(self)@.push(
                SpResourceEntry { dest: dest@, source: source@ },
            ),
            !added ==> final(self)@ == old(self)@,
    {
        if self.contains_dest(dest.as_slice()) {
            false
        } else {
            let ghost pre = self@;
            self.entries.push(ResourceEntry { dest, source });
            assert(self@ =~= pre.push(SpResourceEntry { dest: dest@, source: source@ }));
            true
        }
    }
}

/// The first registration of a destination wins: registering a destination
/// that is already present changes nothing, and what is read back under it
/// stays what the first registration put there.
pub proof fn lemma_manifest_first_wins(
    entries: Seq<SpResourceEntry>,
    dest: Seq<u8>,
    e: SpResourceEntry,
)
    requires
        spec_manifest_get(entries, dest) is Some,
    ensures
        spec_manifest_get(entries.push(e), dest) == spec_manifest_get(entries, dest),
{
    lemma_find_dest_push(entries, dest, e, 0);
    lemma_find_dest_bounds(entries, dest, 0);
}

} // verus!
