use crate::error::AppError;
use crate::models::{settings_valid, ClipboardItem, SearchFilters, Settings};
use crate::sorting::{
    arranged, item_before, item_before_exec, lemma_before_trans, sort_items, sort_spec, SortOrder,
};
use crate::text::{
    chars_of, contains_ci, contains_ci_exec, lemma_seq_lt_connected, lemma_seq_lt_irrefl,
    lemma_seq_lt_trans, seq_lt, str_eq, str_lt,
};
use vstd::prelude::*;
use vstd::string::StringExecFns;

verus! {

/// Pairwise uniqueness of ids and digests across a row sequence.
pub open spec fn rows_distinct(s: Seq<ClipboardItem>) -> bool {
    &&& forall|i: int, j: int|
        0 <= i < j < s.len() ==> (#[trigger] s[i]).id != (#[trigger] s[j]).id
    &&& forall|i: int, j: int|
        0 <= i < j < s.len() ==> (#[trigger] s[i]).hash@ != (#[trigger] s[j]).hash@
}

/// The index of the eviction-first non-favorite row among the first `n`,
/// preferring the earliest index on ties, or -1 when they are all
/// favorites.
pub open spec fn victim_idx_upto(s: Seq<ClipboardItem>, n: int) -> int
    decreases n,
{
    if n <= 0 {
        -1
    } else {
        let b = victim_idx_upto(s, n - 1);
        if !s[n - 1].is_favorite && (b == -1 || item_before(SortOrder::Oldest, s[n - 1], s[b])) {
            n - 1
        } else {
            b
        }
    }
}

/// The index of the row that count-based eviction removes next.
pub open spec fn victim_idx(s: Seq<ClipboardItem>) -> int {
    victim_idx_upto(s, s.len() as int)
}

proof fn lemma_victim_idx_upto(s: Seq<ClipboardItem>, n: int)
    requires
        0 <= n <= s.len(),
    ensures
        -1 <= victim_idx_upto(s, n) < n,
        victim_idx_upto(s, n) != -1 ==> !s[victim_idx_upto(s, n)].is_favorite,
        victim_idx_upto(s, n) == -1 ==> forall|k: int|
            0 <= k < n ==> (#[trigger] s[k]).is_favorite,
        victim_idx_upto(s, n) != -1 ==> forall|k: int|
            0 <= k < n && !(#[trigger] s[k]).is_favorite ==> !item_before(
                SortOrder::Oldest,
                s[k],
                s[victim_idx_upto(s, n)],
            ),
    decreases n,
{
    if n > 0 {
        lemma_victim_idx_upto(s, n - 1);
        let b = victim_idx_upto(s, n - 1);
        let r = victim_idx_upto(s, n);
        if r == n - 1 && r != b {
            assert forall|k: int|
                0 <= k < n && !(#[trigger] s[k]).is_favorite implies !item_before(
                SortOrder::Oldest,
                s[k],
                s[r],
            ) by {
                if k < n - 1 && item_before(SortOrder::Oldest, s[k], s[r]) {
                    assert(b != -1);
                    lemma_before_trans(SortOrder::Oldest, s[k], s[r], s[b]);
                }
            }
        }
    }
}

/// Count-based eviction: while the row count exceeds `max` and a
/// non-favorite row remains, the eviction-first non-favorite is removed.
/// Yields the remaining rows, and the removed ones in removal order.
pub open spec fn evict_excess(s: Seq<ClipboardItem>, max: int) -> (Seq<ClipboardItem>, Seq<
    ClipboardItem,
>)
    decreases s.len(),
{
    let i = victim_idx(s);
    if s.len() <= max || i < 0 || i >= s.len() {
        (s, Seq::empty())
    } else {
        let rest = evict_excess(s.remove(i), max);
        (rest.0, seq![s[i]] + rest.1)
    }
}

/// Non-favorite rows counted.
pub open spec fn count_non_fav(s: Seq<ClipboardItem>) -> int
    decreases s.len(),
{
    if s.len() == 0 {
        0
    } else {
        count_non_fav(s.drop_last()) + if s.last().is_favorite {
            0int
        } else {
            1int
        }
    }
}

proof fn lemma_count_non_fav_bounds(s: Seq<ClipboardItem>)
    ensures
        0 <= count_non_fav(s) <= s.len(),
        (forall|k: int| 0 <= k < s.len() ==> (#[trigger] s[k]).is_favorite) ==> count_non_fav(s)
            == 0,
    decreases s.len(),
{
    if s.len() > 0 {
        lemma_count_non_fav_bounds(s.drop_last());
    }
}

/// After eviction the non-favorite row count is within the budget.
pub proof fn lemma_evict_excess_bound(s: Seq<ClipboardItem>, max: int)
    requires
        max >= 0,
    ensures
        count_non_fav(evict_excess(s, max).0) <= max,
    decreases s.len(),
{
    let i = victim_idx(s);
    lemma_victim_idx_upto(s, s.len() as int);
    if s.len() <= max || i < 0 || i >= s.len() {
        lemma_count_non_fav_bounds(s);
    } else {
        lemma_evict_excess_bound(s.remove(i), max);
    }
}

/// Eviction never removes a favorite row.
pub proof fn lemma_evict_excess_favorites(s: Seq<ClipboardItem>, max: int)
    ensures
        forall|k: int|
            0 <= k < s.len() && (#[trigger] s[k]).is_favorite ==> evict_excess(s, max).0.contains(
                s[k],
            ),
    decreases s.len(),
{
    let i = victim_idx(s);
    lemma_victim_idx_upto(s, s.len() as int);
    if s.len() <= max || i < 0 || i >= s.len() {
        assert forall|k: int|
            0 <= k < s.len() && (#[trigger] s[k]).is_favorite implies evict_excess(
            s,
            max,
        ).0.contains(s[k]) by {
            assert(evict_excess(s, max).0[k] == s[k]);
        }
    } else {
        let rest = s.remove(i);
        lemma_evict_excess_favorites(rest, max);
        assert forall|k: int|
            0 <= k < s.len() && (#[trigger] s[k]).is_favorite implies evict_excess(
            s,
            max,
        ).0.contains(s[k]) by {
            assert(k != i);
            if k < i {
                assert(rest[k] == s[k]);
            } else {
                assert(rest[k - 1] == s[k]);
            }
        }
    }
}

/// Eviction keeps a distinct selection of the original rows.
pub proof fn lemma_evict_excess_rows(s: Seq<ClipboardItem>, max: int)
    ensures
        rows_distinct(s) ==> rows_distinct(evict_excess(s, max).0),
        forall|j: int|
            0 <= j < evict_excess(s, max).0.len() ==> s.contains(
                #[trigger] evict_excess(s, max).0[j],
            ),
    decreases s.len(),
{
    let i = victim_idx(s);
    lemma_victim_idx_upto(s, s.len() as int);
    if s.len() <= max || i < 0 || i >= s.len() {
        assert forall|j: int| 0 <= j < evict_excess(s, max).0.len() implies s.contains(
            #[trigger] evict_excess(s, max).0[j],
        ) by {
            assert(evict_excess(s, max).0[j] == s[j]);
        }
    } else {
        let rest = s.remove(i);
        lemma_evict_excess_rows(rest, max);
        if rows_distinct(s) {
            assert forall|a: int, b: int| 0 <= a < b < rest.len() implies (#[trigger] rest[a]).id
                != (#[trigger] rest[b]).id && rest[a].hash@ != rest[b].hash@ by {
                let a0 = if a < i {
                    a
                } else {
                    a + 1
                };
                let b0 = if b < i {
                    b
                } else {
                    b + 1
                };
                assert(rest[a] == s[a0]);
                assert(rest[b] == s[b0]);
            }
            assert(rows_distinct(rest));
        }
        assert forall|j: int| 0 <= j < evict_excess(s, max).0.len() implies s.contains(
            #[trigger] evict_excess(s, max).0[j],
        ) by {
            let x = evict_excess(s, max).0[j];
            assert(evict_excess(s, max).0 == evict_excess(rest, max).0);
            assert(evict_excess(rest, max).0[j] == x);
            assert(rest.contains(x));
            let w = choose|w: int| 0 <= w < rest.len() && rest[w] == x;
            if w < i {
                assert(s[w] == x);
            } else {
                assert(s[w + 1] == x);
            }
        }
    }
}

/// The image paths recorded on a run of removed rows, in removal order.
pub open spec fn removed_paths(rs: Seq<ClipboardItem>) -> Seq<String>
    decreases rs.len(),
{
    if rs.len() == 0 {
        Seq::empty()
    } else {
        removed_paths(rs.drop_last()) + match rs.last().image_path {
            Some(p) => seq![p],
            None => Seq::empty(),
        }
    }
}

/// The row that an insert builds: store-assigned id, favorite off.
pub open spec fn built_item(
    id: i64,
    content: String,
    content_type: String,
    image_path: Option<String>,
    category: String,
    source_app: String,
    is_sensitive: bool,
    hash: String,
    preview: String,
    copied_at: i64,
) -> ClipboardItem {
    ClipboardItem {
        id,
        content,
        content_type,
        image_path,
        category,
        source_app,
        preview,
        copied_at,
        is_favorite: false,
        is_sensitive,
        hash,
    }
}

/// Some row holds exactly this digest.
pub open spec fn has_digest(s: Seq<ClipboardItem>, d: Seq<char>) -> bool {
    exists|i: int| 0 <= i < s.len() && #[trigger] s[i].hash@ == d
}

/// Some row carries this id.
pub open spec fn has_id(s: Seq<ClipboardItem>, id: int) -> bool {
    exists|i: int| 0 <= i < s.len() && #[trigger] s[i].id == id
}

/// Some row records exactly this image path.
pub open spec fn has_image_path(s: Seq<ClipboardItem>, p: Seq<char>) -> bool {
    exists|i: int|
        0 <= i < s.len() && (#[trigger] s[i].image_path) is Some && s[i].image_path->0@ == p
}

/// Some stored exclusion equals this application name.
pub open spec fn exclusions_contain(s: Seq<String>, name: Seq<char>) -> bool {
    exists|i: int| 0 <= i < s.len() && #[trigger] s[i]@ == name
}

/// The item with its favorite flag replaced.
pub open spec fn with_favorite(it: ClipboardItem, fav: bool) -> ClipboardItem {
    ClipboardItem { is_favorite: fav, ..it }
}

/// The durable, queryable record of captured events: rows in insertion
/// order, the singleton settings, and the excluded application names.
///
/// The store owns deduplication on insert, pagination, search, favorite
/// and delete mutation, and both eviction policies. Durability and the
/// removal of image files stay outside: mutating operations hand back the
/// paths whose files became orphans.
pub struct Database {
    /// The persisted rows, in insertion order.
    pub items: Vec<ClipboardItem>,
    /// The id the next newly inserted row receives.
    pub next_id: i64,
    /// The persisted singleton configuration.
    pub settings: Settings,
    /// The persisted set of excluded application names, without duplicates.
    pub exclusions: Vec<String>,
}

impl Database {
    /// Well-formedness: ids are positive, unique and below the insertion
    /// counter; digests are unique; exclusions are strictly sorted by
    /// name, so also duplicate-free.
    pub open spec fn wf(&self) -> bool {
        &&& 0 < self.next_id
        &&& forall|i: int|
            0 <= i < self.items@.len() ==> 0 < (#[trigger] self.items@[i]).id < self.next_id
        &&& rows_distinct(self.items@)
        &&& forall|i: int, j: int|
            0 <= i < j < self.exclusions@.len() ==> (#[trigger] self.exclusions@[i])@ != (
            #[trigger] self.exclusions@[j])@
        &&& forall|i: int, j: int|
            0 <= i < j < self.exclusions@.len() ==> seq_lt(
                (#[trigger] self.exclusions@[i])@,
                (#[trigger] self.exclusions@[j])@,
            )
    }

    /// An empty store with the default settings.
    pub fn new() -> (db: Database)
        ensures
            db.wf(),
            db.items@ == Seq::<ClipboardItem>::empty(),
            db.next_id == 1,
            crate::models::is_default_settings(db.settings),
            db.exclusions@ == Seq::<String>::empty(),
    {
        Database {
            items: Vec::new(),
            next_id: 1,
            settings: Settings::default(),
            exclusions: Vec::new(),
        }
    }

    /// The current settings, defaults included where never updated.
    pub fn get_settings(&self) -> (s: Settings)
        ensures
            s == self.settings,
    {
        self.settings.duplicate()
    }

    /// Validates the bounds, then applies the whole settings value.
    /// Out-of-range values are rejected and nothing changes.
    pub fn update_settings(&mut self, settings: Settings) -> (r: Result<(), AppError>)
        requires
            old(self).wf(),
        ensures
            final(self).wf(),
            final(self).items@ == old(self).items@,
            final(self).next_id == old(self).next_id,
            final(self).exclusions@ == old(self).exclusions@,
            settings_valid(settings) ==> r is Ok && final(self).settings == settings,
            !settings_valid(settings) ==> (r matches Err(AppError::InvalidInput(_))
                && final(self).settings == old(self).settings),
    {
        if settings.max_items < 10 || settings.max_items > 100000 {
            return Err(
                AppError::InvalidInput("max_items must be between 10 and 100000".to_owned()),
            );
        }
        if settings.retention_days < 1 {
            return Err(AppError::InvalidInput("retention_days must be at least 1".to_owned()));
        }
        if settings.max_image_size_mb < 1 || settings.max_image_size_mb > 100 {
            return Err(
                AppError::InvalidInput("max_image_size_mb must be between 1 and 100".to_owned()),
            );
        }
        self.settings = settings;
        Ok(())
    }

    /// The excluded application names, sorted ascending by name.
    pub fn get_exclusions(&self) -> (r: Vec<String>)
        requires
            self.wf(),
        ensures
            r@ == self.exclusions@,
            forall|i: int, j: int|
                0 <= i < j < r@.len() ==> seq_lt((#[trigger] r@[i])@, (#[trigger] r@[j])@),
    {
        let n = self.exclusions.len();
        let mut r: Vec<String> = Vec::new();
        let mut i: usize = 0;
        while i < n
            invariant
                n == self.exclusions@.len(),
                i <= n,
                r@ == self.exclusions@.take(i as int),
            decreases n - i,
        {
            r.push(self.exclusions[i].clone());
            proof {
                assert(r@ =~= self.exclusions@.take(i + 1));
            }
            i = i + 1;
        }
        proof {
            assert(self.exclusions@.take(n as int) =~= self.exclusions@);
        }
        r
    }

    /// Adds an application name to the exclusion list, keeping the list
    /// sorted; a name already present is left alone.
    pub fn add_exclusion(&mut self, app_name: String)
        requires
            old(self).wf(),
        ensures
            final(self).wf(),
            final(self).items@ == old(self).items@,
            final(self).next_id == old(self).next_id,
            final(self).settings == old(self).settings,
            exclusions_contain(final(self).exclusions@, app_name@),
            exclusions_contain(old(self).exclusions@, app_name@) ==> final(self).exclusions@
                == old(self).exclusions@,
            !exclusions_contain(old(self).exclusions@, app_name@) ==> exists|i: int|
                0 <= i <= old(self).exclusions@.len() && final(self).exclusions@ == old(
                    self,
                ).exclusions@.insert(i, app_name),
    {
        let n = self.exclusions.len();
        let mut i: usize = 0;
        while i < n && str_lt(self.exclusions[i].as_str(), app_name.as_str())
            invariant
                old(self).wf(),
                *self == *old(self),
                n == self.exclusions@.len(),
                i <= n,
                forall|k: int| 0 <= k < i ==> seq_lt((#[trigger] self.exclusions@[k])@, app_name@),
            decreases n - i,
        {
            i = i + 1;
        }
        if i < n && str_eq(self.exclusions[i].as_str(), app_name.as_str()) {
            proof {
                assert(exclusions_contain(self.exclusions@, app_name@));
            }
            return ;
        }
        let ghost before = self.exclusions@;
        proof {
            // the scan stopped strictly below the insertion point's element
            if i < n {
                lemma_seq_lt_connected(before[i as int]@, app_name@);
                assert(seq_lt(app_name@, before[i as int]@));
            }
            // the name occurs nowhere: everything before is strictly
            // smaller, everything from the stop on is strictly larger
            assert forall|k: int| 0 <= k < before.len() implies (#[trigger] before[k])@
                != app_name@ by {
                lemma_seq_lt_irrefl(app_name@);
                if k >= i && i < n && k > i {
                    lemma_seq_lt_trans(app_name@, before[i as int]@, before[k]@);
                }
            }
            assert(!exclusions_contain(before, app_name@));
        }
        self.exclusions.insert(i, app_name);
        proof {
            assert(self.exclusions@ == before.insert(i as int, app_name));
            assert(self.exclusions@[i as int] == app_name);
            assert(exclusions_contain(self.exclusions@, app_name@));
            assert forall|a: int, b: int| 0 <= a < b < self.exclusions@.len() implies seq_lt(
                (#[trigger] self.exclusions@[a])@,
                (#[trigger] self.exclusions@[b])@,
            ) && self.exclusions@[a]@ != self.exclusions@[b]@ by {
                let av = if a < i { before[a] } else if a == i { app_name } else { before[a - 1] };
                let bv = if b < i { before[b] } else if b == i { app_name } else { before[b - 1] };
                assert(self.exclusions@[a] == av);
                assert(self.exclusions@[b] == bv);
                if a == i && b > i && b - 1 > i {
                    assert(i < before.len());
                    lemma_seq_lt_trans(app_name@, before[i as int]@, before[b - 1]@);
                }
                lemma_seq_lt_irrefl(av@);
            }
        }
    }

    /// Removes an application name from the exclusion list; removing an
    /// absent name is a no-op.
    pub fn remove_exclusion(&mut self, app_name: String)
        requires
            old(self).wf(),
        ensures
            final(self).wf(),
            final(self).items@ == old(self).items@,
            final(self).next_id == old(self).next_id,
            final(self).settings == old(self).settings,
            !exclusions_contain(old(self).exclusions@, app_name@) ==> final(self).exclusions@
                == old(self).exclusions@,
            exclusions_contain(old(self).exclusions@, app_name@) ==> exists|i: int|
                0 <= i < old(self).exclusions@.len() && (#[trigger] old(self).exclusions@[i])@
                    == app_name@ && final(self).exclusions@ == old(self).exclusions@.remove(i),
            !exclusions_contain(final(self).exclusions@, app_name@),
    {
        let n = self.exclusions.len();
        let mut i: usize = 0;
        while i < n
            invariant
                old(self).wf(),
                *self == *old(self),
                n == self.exclusions@.len(),
                i <= n,
                forall|k: int| 0 <= k < i ==> (#[trigger] self.exclusions@[k])@ != app_name@,
            decreases n - i,
        {
            if str_eq(self.exclusions[i].as_str(), app_name.as_str()) {
                let ghost before = self.exclusions@;
                self.exclusions.remove(i);
                proof {
                    assert forall|k: int|
                        0 <= k < self.exclusions@.len() implies before.contains(
                        #[trigger] self.exclusions@[k],
                    ) by {
                        if k < i {
                            assert(self.exclusions@[k] == before[k]);
                        } else {
                            assert(self.exclusions@[k] == before[k + 1]);
                        }
                    }
                    assert forall|k: int|
                        0 <= k < self.exclusions@.len() implies (#[trigger] self.exclusions@[k])@
                        != app_name@ by {
                        if k < i {
                            assert(self.exclusions@[k] == before[k]);
                        } else {
                            assert(self.exclusions@[k] == before[k + 1]);
                            assert(before[k + 1]@ != before[i as int]@);
                        }
                    }
                    assert forall|k: int|
                        0 <= k < before.len() && (#[trigger] before[k])@ != app_name@ implies self
                        .exclusions@.contains(before[k]) by {
                        if k < i {
                            assert(self.exclusions@[k] == before[k]);
                        } else {
                            assert(k > i);
                            assert(self.exclusions@[k - 1] == before[k]);
                        }
                    }
                    assert forall|a: int, b: int|
                        0 <= a < b < self.exclusions@.len() implies (
                        #[trigger] self.exclusions@[a])@ != (#[trigger] self.exclusions@[b])@
                        && seq_lt(self.exclusions@[a]@, self.exclusions@[b]@) by {
                        let a0 = if a < i { a } else { a + 1 };
                        let b0 = if b < i { b } else { b + 1 };
                        assert(self.exclusions@[a] == before[a0]);
                        assert(self.exclusions@[b] == before[b0]);
                    }
                    assert(0 <= i < before.len() && before[i as int]@ == app_name@
                        && self.exclusions@ == before.remove(i as int));
                }
                return ;
            }
            i = i + 1;
        }
    }

    /// The row carrying `id`, or `NotFound`.
    pub fn get_item_by_id(&self, id: i64) -> (r: Result<ClipboardItem, AppError>)
        requires
            self.wf(),
        ensures
            has_id(self.items@, id as int) ==> r is Ok && self.items@.contains(r->Ok_0) && forall|
                i: int,
            |
                0 <= i < self.items@.len() && (#[trigger] self.items@[i]).id == id ==> r->Ok_0
                    == self.items@[i],
            !has_id(self.items@, id as int) ==> r == Err::<ClipboardItem, AppError>(
                AppError::NotFound(id),
            ),
    {
        let n = self.items.len();
        let mut i: usize = 0;
        while i < n
            invariant
                self.wf(),
                n == self.items@.len(),
                i <= n,
                forall|k: int| 0 <= k < i ==> (#[trigger] self.items@[k]).id != id,
            decreases n - i,
        {
            if self.items[i].id == id {
                let r = self.items[i].duplicate();
                proof {
                    assert(self.items@.contains(self.items@[i as int]));
                }
                return Ok(r);
            }
            i = i + 1;
        }
        Err(AppError::NotFound(id))
    }

    /// The stored content of the row carrying `id`, or `NotFound`.
    pub fn get_item_content(&self, id: i64) -> (r: Result<String, AppError>)
        requires
            self.wf(),
        ensures
            has_id(self.items@, id as int) ==> r is Ok && forall|i: int|
                0 <= i < self.items@.len() && (#[trigger] self.items@[i]).id == id ==> r->Ok_0
                    == self.items@[i].content,
            !has_id(self.items@, id as int) ==> r == Err::<String, AppError>(
                AppError::NotFound(id),
            ),
    {
        match self.get_item_by_id(id) {
            Ok(it) => Ok(it.content),
            Err(e) => Err(e),
        }
    }

    /// `true` exactly when some row records this image path.
    pub fn image_path_exists(&self, image_path: &str) -> (r: bool)
        ensures
            r == has_image_path(self.items@, image_path@),
    {
        let n = self.items.len();
        let mut i: usize = 0;
        while i < n
            invariant
                n == self.items@.len(),
                i <= n,
                forall|k: int|
                    0 <= k < i ==> !((#[trigger] self.items@[k]).image_path is Some
                        && self.items@[k].image_path->0@ == image_path@),
            decreases n - i,
        {
            match &self.items[i].image_path {
                Some(p) => {
                    if str_eq(p.as_str(), image_path) {
                        return true;
                    }
                },
                None => {},
            }
            i = i + 1;
        }
        false
    }

    /// Sets the favorite flag of the row carrying `id`, or `NotFound`.
    /// Nothing else about the row changes.
    pub fn set_favorite(&mut self, id: i64, is_favorite: bool) -> (r: Result<(), AppError>)
        requires
            old(self).wf(),
        ensures
            final(self).wf(),
            final(self).next_id == old(self).next_id,
            final(self).settings == old(self).settings,
            final(self).exclusions@ == old(self).exclusions@,
            !has_id(old(self).items@, id as int) ==> r == Err::<(), AppError>(AppError::NotFound(id))
                && final(self).items@ == old(self).items@,
            has_id(old(self).items@, id as int) ==> r is Ok && final(self).items@.len() == old(
                self,
            ).items@.len() && forall|i: int|
                0 <= i < old(self).items@.len() ==> #[trigger] final(self).items@[i] == if old(
                    self,
                ).items@[i].id == id {
                    with_favorite(old(self).items@[i], is_favorite)
                } else {
                    old(self).items@[i]
                },
    {
        let n = self.items.len();
        let mut i: usize = 0;
        while i < n
            invariant
                old(self).wf(),
                *self == *old(self),
                n == self.items@.len(),
                i <= n,
                forall|k: int| 0 <= k < i ==> (#[trigger] self.items@[k]).id != id,
            decreases n - i,
        {
            if self.items[i].id == id {
                let ghost before = self.items@;
                let mut it = self.items.remove(i);
                it.is_favorite = is_favorite;
                self.items.insert(i, it);
                proof {
                    assert(self.items@ =~= before.update(i as int, with_favorite(before[i as int], is_favorite)));
                }
                return Ok(());
            }
            i = i + 1;
        }
        Err(AppError::NotFound(id))
    }

    /// Deletes the row carrying `id`, or `NotFound`. The row's image file,
    /// if any, is the caller's to remove.
    pub fn delete_item(&mut self, id: i64) -> (r: Result<(), AppError>)
        requires
            old(self).wf(),
        ensures
            final(self).wf(),
            final(self).next_id == old(self).next_id,
            final(self).settings == old(self).settings,
            final(self).exclusions@ == old(self).exclusions@,
            !has_id(old(self).items@, id as int) ==> r == Err::<(), AppError>(AppError::NotFound(id))
                && final(self).items@ == old(self).items@,
            has_id(old(self).items@, id as int) ==> r is Ok && exists|i: int|
                0 <= i < old(self).items@.len() && (#[trigger] old(self).items@[i]).id == id
                    && final(self).items@ == old(self).items@.remove(i),
    {
        let n = self.items.len();
        let mut i: usize = 0;
        while i < n
            invariant
                old(self).wf(),
                *self == *old(self),
                n == self.items@.len(),
                i <= n,
                forall|k: int| 0 <= k < i ==> (#[trigger] self.items@[k]).id != id,
            decreases n - i,
        {
            if self.items[i].id == id {
                let ghost before = self.items@;
                self.items.remove(i);
                proof {
                    assert(before.remove(i as int) =~= self.items@);
                    assert forall|a: int, b: int|
                        0 <= a < b < self.items@.len() implies (#[trigger] self.items@[a]).id != (
                        #[trigger] self.items@[b]).id && self.items@[a].hash@
                        != self.items@[b].hash@ by {
                        let a0 = if a < i { a } else { a + 1 };
                        let b0 = if b < i { b } else { b + 1 };
                        assert(self.items@[a] == before[a0]);
                        assert(self.items@[b] == before[b0]);
                    }
                    assert forall|k: int|
                        0 <= k < self.items@.len() implies 0 < (#[trigger] self.items@[k]).id
                        < self.next_id by {
                        let k0 = if k < i { k } else { k + 1 };
                        assert(self.items@[k] == before[k0]);
                    }
                    assert(0 <= i < before.len() && before[i as int].id == id && self.items@
                        == before.remove(i as int));
                }
                return Ok(());
            }
            i = i + 1;
        }
        Err(AppError::NotFound(id))
    }

    /// Inserts a capture as a new row, or resolves it to the existing row
    /// with the same digest.
    ///
    /// At most one row per digest ever exists: a duplicate insert returns
    /// the existing row's id and mutates nothing. A new insert appends the
    /// row under a fresh id and, as part of the same operation, runs
    /// count-based eviction: the oldest non-favorite rows leave until the
    /// count is within `max_items`, favorites staying put even if the
    /// store then remains over budget. The image paths of evicted rows
    /// come back so the caller can remove the orphaned files.
    pub fn insert_item(
        &mut self,
        content: String,
        content_type: String,
        image_path: Option<String>,
        category: String,
        source_app: String,
        is_sensitive: bool,
        hash: String,
        preview: String,
        copied_at: i64,
    ) -> (r: (i64, Vec<String>))
        requires
            old(self).wf(),
            old(self).next_id < i64::MAX,
        ensures
            final(self).wf(),
            final(self).settings == old(self).settings,
            final(self).exclusions@ == old(self).exclusions@,
            has_digest(old(self).items@, hash@) ==> ({
                &&& final(self).items@ == old(self).items@
                &&& final(self).next_id == old(self).next_id
                &&& r.1@ == Seq::<String>::empty()
                &&& forall|i: int|
                    0 <= i < old(self).items@.len() && (#[trigger] old(self).items@[i]).hash@
                        == hash@ ==> r.0 == old(self).items@[i].id
            }),
            !has_digest(old(self).items@, hash@) ==> ({
                let appended = old(self).items@.push(
                    built_item(
                        old(self).next_id,
                        content,
                        content_type,
                        image_path,
                        category,
                        source_app,
                        is_sensitive,
                        hash,
                        preview,
                        copied_at,
                    ),
                );
                let ev = evict_excess(appended, old(self).settings.max_items as int);
                &&& r.0 == old(self).next_id
                &&& final(self).next_id == old(self).next_id + 1
                &&& final(self).items@ == ev.0
                &&& r.1@ == removed_paths(ev.1)
                &&& old(self).items@.len() < old(self).settings.max_items ==> final(self).items@
                    == appended && r.1@ == Seq::<String>::empty()
                &&& count_non_fav(final(self).items@) <= old(self).settings.max_items as int
                &&& forall|k: int|
                    0 <= k < old(self).items@.len() && (#[trigger] old(
                        self,
                    ).items@[k]).is_favorite ==> final(self).items@.contains(old(self).items@[k])
            }),
    {
        // deduplication: a digest already present resolves to its row
        let n = self.items.len();
        let mut i: usize = 0;
        while i < n
            invariant
                old(self).wf(),
                *self == *old(self),
                n == self.items@.len(),
                i <= n,
                forall|k: int| 0 <= k < i ==> (#[trigger] self.items@[k]).hash@ != hash@,
            decreases n - i,
        {
            if str_eq(self.items[i].hash.as_str(), hash.as_str()) {
                return (self.items[i].id, Vec::new());
            }
            i = i + 1;
        }
        // a fresh row under the next id
        let new_id = self.next_id;
        let item = ClipboardItem {
            id: new_id,
            content,
            content_type,
            image_path,
            category,
            source_app,
            preview,
            copied_at,
            is_favorite: false,
            is_sensitive,
            hash,
        };
        self.items.push(item);
        self.next_id = self.next_id + 1;
        let ghost appended = self.items@;
        let ghost maxg = self.settings.max_items as int;
        // count-based eviction as part of the same operation
        let max = self.settings.max_items as usize;
        let mut paths: Vec<String> = Vec::new();
        let ghost mut removed: Seq<ClipboardItem> = Seq::empty();
        while self.items.len() > max
            invariant
                old(self).wf(),
                self.next_id == old(self).next_id + 1,
                self.settings == old(self).settings,
                self.exclusions@ == old(self).exclusions@,
                maxg == max as int,
                evict_excess(appended, maxg).0 == evict_excess(self.items@, maxg).0,
                evict_excess(appended, maxg).1 == removed + evict_excess(self.items@, maxg).1,
                paths@ == removed_paths(removed),
            ensures
                old(self).wf(),
                self.next_id == old(self).next_id + 1,
                self.settings == old(self).settings,
                self.exclusions@ == old(self).exclusions@,
                self.items@ == evict_excess(appended, maxg).0,
                removed == evict_excess(appended, maxg).1,
                paths@ == removed_paths(removed),
            decreases self.items@.len(),
        {
            let vi = match find_victim(&self.items) {
                Some(vi) => vi,
                None => {
                    proof {
                        assert(evict_excess(self.items@, maxg).0 =~= self.items@);
                        assert(removed + evict_excess(self.items@, maxg).1 =~= removed);
                    }
                    break ;
                },
            };
            let ghost cur = self.items@;
            let ghost removed_before = removed;
            let victim = self.items.remove(vi);
            proof {
                lemma_victim_idx_upto(cur, cur.len() as int);
                assert(evict_excess(cur, maxg).0 == evict_excess(cur.remove(vi as int), maxg).0);
                assert(evict_excess(cur, maxg).1 == seq![victim] + evict_excess(
                    cur.remove(vi as int),
                    maxg,
                ).1);
                removed = removed.push(victim);
                assert(removed.drop_last() =~= removed_before);
                assert(removed.last() == victim);
                assert((removed + evict_excess(self.items@, maxg).1) =~= (removed_before + (
                seq![victim] + evict_excess(self.items@, maxg).1)));
            }
            match victim.image_path {
                Some(p) => {
                    proof {
                        assert(removed_paths(removed) =~= removed_paths(removed_before)
                            + seq![victim.image_path->0]);
                    }
                    paths.push(p);
                },
                None => {
                    proof {
                        assert(removed_paths(removed) =~= removed_paths(removed_before));
                    }
                },
            }
        }
        proof {
            assert(self.items@ == evict_excess(appended, maxg).0);
            assert(removed == evict_excess(appended, maxg).1);
            // the appended sequence is distinct, so the kept rows are too
            assert forall|a: int, b: int| 0 <= a < b < appended.len() implies (
            #[trigger] appended[a]).id != (#[trigger] appended[b]).id && appended[a].hash@
                != appended[b].hash@ by {
                if b == appended.len() - 1 {
                    assert(appended[a] == old(self).items@[a]);
                }
            }
            assert(rows_distinct(appended));
            lemma_evict_excess_rows(appended, maxg);
            lemma_evict_excess_bound(appended, maxg);
            lemma_evict_excess_favorites(appended, maxg);
            assert forall|k: int| 0 <= k < self.items@.len() implies 0 < (
            #[trigger] self.items@[k]).id < self.next_id by {
                let x = self.items@[k];
                assert(appended.contains(x));
                let w = choose|w: int| 0 <= w < appended.len() && appended[w] == x;
                if w < appended.len() - 1 {
                    assert(old(self).items@[w] == x);
                }
            }
            assert forall|k: int|
                0 <= k < old(self).items@.len() && (#[trigger] old(
                    self,
                ).items@[k]).is_favorite implies self.items@.contains(old(self).items@[k]) by {
                assert(appended[k] == old(self).items@[k]);
            }
        }
        (new_id, paths)
    }

    /// Deletes every non-favorite row older than the retention window and
    /// returns how many left, with the image paths whose files became
    /// orphans. Favorites are never touched by this path.
    pub fn cleanup_expired(&mut self, retention_days: u32, now: i64) -> (r: (u64, Vec<String>))
        requires
            old(self).wf(),
        ensures
            final(self).wf(),
            final(self).next_id == old(self).next_id,
            final(self).settings == old(self).settings,
            final(self).exclusions@ == old(self).exclusions@,
            ({
                let th = expiry_threshold(retention_days as int, now as int);
                &&& final(self).items@ == old(self).items@.filter(keep_fn(th))
                &&& r.0 as int == old(self).items@.len() - final(self).items@.len()
                &&& r.1@ == expired_paths(old(self).items@, th)
                &&& forall|k: int|
                    0 <= k < old(self).items@.len() && (#[trigger] old(
                        self,
                    ).items@[k]).is_favorite ==> final(self).items@.contains(old(self).items@[k])
            }),
    {
        let capped: u32 = if retention_days <= 3650 {
            retention_days
        } else {
            3650
        };
        let sub: i64 = (capped as i64) * 86400;
        let th: i64 = if now >= i64::MIN + sub {
            now - sub
        } else {
            i64::MIN
        };
        proof {
            assert(th as int == expiry_threshold(retention_days as int, now as int));
        }
        let n = self.items.len();
        let mut kept: Vec<ClipboardItem> = Vec::new();
        let mut paths: Vec<String> = Vec::new();
        let mut i: usize = 0;
        while i < n
            invariant
                old(self).wf(),
                *self == *old(self),
                th as int == expiry_threshold(retention_days as int, now as int),
                n == self.items@.len(),
                i <= n,
                kept@.len() <= i,
                kept@ == self.items@.take(i as int).filter(keep_fn(th as int)),
                paths@ == expired_paths(self.items@.take(i as int), th as int),
                rows_distinct(kept@),
                forall|k: int|
                    0 <= k < kept@.len() ==> self.items@.take(i as int).contains(
                        #[trigger] kept@[k],
                    ),
            decreases n - i,
        {
            proof {
                reveal(Seq::filter);
                assert(self.items@.take(i + 1).drop_last() =~= self.items@.take(i as int));
                assert(self.items@.take(i + 1).last() == self.items@[i as int]);
            }
            let keep = self.items[i].is_favorite || self.items[i].copied_at >= th;
            if keep {
                let d = self.items[i].duplicate();
                proof {
                    assert forall|k: int| 0 <= k < kept@.len() implies (#[trigger] kept@[k]).id
                        != d.id && kept@[k].hash@ != d.hash@ by {
                        let tk = self.items@.take(i as int);
                        assert(tk.contains(kept@[k]));
                        let w = choose|w: int| 0 <= w < tk.len() && tk[w] == kept@[k];
                        assert(self.items@[w] == kept@[k]);
                    }
                }
                kept.push(d);
                proof {
                    assert(kept@ =~= self.items@.take(i + 1).filter(keep_fn(th as int)));
                    assert forall|k: int| 0 <= k < kept@.len() implies self.items@.take(
                        i + 1,
                    ).contains(#[trigger] kept@[k]) by {
                        if k < kept@.len() - 1 {
                            let tk = self.items@.take(i as int);
                            assert(tk.contains(kept@[k]));
                            let w = choose|w: int| 0 <= w < tk.len() && tk[w] == kept@[k];
                            assert(self.items@.take(i + 1)[w] == kept@[k]);
                        } else {
                            assert(self.items@.take(i + 1)[i as int] == kept@[k]);
                        }
                    }
                }
            } else {
                let is_image = str_eq(self.items[i].content_type.as_str(), "image");
                if is_image {
                    match &self.items[i].image_path {
                        Some(p) => {
                            paths.push(p.clone());
                        },
                        None => {},
                    }
                }
                proof {
                    assert(kept@ =~= self.items@.take(i + 1).filter(keep_fn(th as int)));
                    assert(paths@ =~= expired_paths(self.items@.take(i + 1), th as int));
                    assert forall|k: int| 0 <= k < kept@.len() implies self.items@.take(
                        i + 1,
                    ).contains(#[trigger] kept@[k]) by {
                        let tk = self.items@.take(i as int);
                        assert(tk.contains(kept@[k]));
                        let w = choose|w: int| 0 <= w < tk.len() && tk[w] == kept@[k];
                        assert(self.items@.take(i + 1)[w] == kept@[k]);
                    }
                }
            }
            i = i + 1;
        }
        proof {
            assert(self.items@.take(n as int) =~= self.items@);
        }
        let deleted = (n - kept.len()) as u64;
        let ghost before = self.items@;
        self.items = kept;
        proof {
            assert forall|k: int| 0 <= k < self.items@.len() implies 0 < (
            #[trigger] self.items@[k]).id < self.next_id by {
                assert(before.contains(self.items@[k]));
                let w = choose|w: int| 0 <= w < before.len() && before[w] == self.items@[k];
                assert(before[w] == self.items@[k]);
            }
            assert forall|k: int|
                0 <= k < before.len() && (#[trigger] before[k]).is_favorite implies self
                .items@.contains(before[k]) by {
                assert((keep_fn(th as int))(before[k]));
                before.lemma_filter_contains(keep_fn(th as int), k);
            }
        }
        (deleted, paths)
    }

    /// A page of the visible history: non-sensitive rows, favorites first,
    /// then most recent first, `offset` rows skipped, at most `limit`
    /// handed back.
    pub fn get_history(&self, limit: u32, offset: u32) -> (r: Vec<ClipboardItem>)
        requires
            self.wf(),
        ensures
            ({
                let vis = self.items@.filter(visible_fn());
                let srt = sort_spec(SortOrder::History, vis);
                let start = if offset as int <= srt.len() {
                    offset as int
                } else {
                    srt.len() as int
                };
                let end = if offset as int + limit as int <= srt.len() {
                    offset as int + limit as int
                } else {
                    srt.len() as int
                };
                &&& r@ == srt.subrange(start, end)
                &&& arranged(SortOrder::History, r@)
                &&& forall|k: int| 0 <= k < r@.len() ==> !(#[trigger] r@[k]).is_sensitive
            }),
    {
        let n = self.items.len();
        let mut vis: Vec<ClipboardItem> = Vec::new();
        let mut i: usize = 0;
        while i < n
            invariant
                n == self.items@.len(),
                i <= n,
                vis@ == self.items@.take(i as int).filter(visible_fn()),
                forall|k: int| 0 <= k < vis@.len() ==> !(#[trigger] vis@[k]).is_sensitive,
            decreases n - i,
        {
            proof {
                reveal(Seq::filter);
                assert(self.items@.take(i + 1).drop_last() =~= self.items@.take(i as int));
                assert(self.items@.take(i + 1).last() == self.items@[i as int]);
            }
            if !self.items[i].is_sensitive {
                vis.push(self.items[i].duplicate());
            }
            proof {
                assert(vis@ =~= self.items@.take(i + 1).filter(visible_fn()));
            }
            i = i + 1;
        }
        proof {
            assert(self.items@.take(n as int) =~= self.items@);
        }
        let sorted = sort_items(SortOrder::History, &vis);
        let total = sorted.len();
        let off = offset as usize;
        let start = if off <= total {
            off
        } else {
            total
        };
        let avail = total - start;
        let lim = limit as usize;
        let cnt = if lim <= avail {
            lim
        } else {
            avail
        };
        let mut out: Vec<ClipboardItem> = Vec::new();
        let mut j: usize = 0;
        while j < cnt
            invariant
                total == sorted@.len(),
                start + cnt <= total,
                j <= cnt,
                out@ == sorted@.subrange(start as int, start + j),
            decreases cnt - j,
        {
            out.push(sorted[start + j].duplicate());
            proof {
                assert(out@ =~= sorted@.subrange(start as int, start + j + 1));
            }
            j = j + 1;
        }
        proof {
            assert forall|k: int| 0 <= k < out@.len() implies !(#[trigger] out@[k]).is_sensitive by {
                assert(out@[k] == sorted@[start + k]);
                assert(vis@.contains(sorted@[start + k]));
                let w = choose|w: int| 0 <= w < vis@.len() && vis@[w] == sorted@[start + k];
                assert(vis@[w] == out@[k]);
            }
            assert forall|a: int, b: int| 0 <= a < b < out@.len() implies !item_before(
                SortOrder::History,
                #[trigger] out@[b],
                #[trigger] out@[a],
            ) by {
                assert(out@[a] == sorted@[start + a]);
                assert(out@[b] == sorted@[start + b]);
            }
        }
        out
    }

    /// Full-text search over the visible rows: the query must occur in the
    /// content as a case-insensitive substring, the equality and date
    /// filters must pass; most recent first, at most `limit` rows. The
    /// substring reading is this library's model of a full-text match; a
    /// token-index backend may match multi-word queries differently.
    pub fn search(&self, query: String, filters: SearchFilters, limit: u32) -> (r: Vec<
        ClipboardItem,
    >)
        requires
            self.wf(),
        ensures
            ({
                let sel = self.items@.filter(search_fn(query@, filters));
                let srt = sort_spec(SortOrder::Recency, sel);
                let cnt = if limit as int <= srt.len() {
                    limit as int
                } else {
                    srt.len() as int
                };
                &&& r@ == srt.take(cnt)
                &&& arranged(SortOrder::Recency, r@)
                &&& forall|k: int| 0 <= k < r@.len() ==> !(#[trigger] r@[k]).is_sensitive
            }),
    {
        let qv = chars_of(query.as_str());
        let n = self.items.len();
        let mut sel: Vec<ClipboardItem> = Vec::new();
        let mut i: usize = 0;
        while i < n
            invariant
                qv@ == query@,
                n == self.items@.len(),
                i <= n,
                sel@ == self.items@.take(i as int).filter(search_fn(query@, filters)),
                forall|k: int| 0 <= k < sel@.len() ==> !(#[trigger] sel@[k]).is_sensitive,
            decreases n - i,
        {
            proof {
                reveal(Seq::filter);
                assert(self.items@.take(i + 1).drop_last() =~= self.items@.take(i as int));
                assert(self.items@.take(i + 1).last() == self.items@[i as int]);
            }
            let cv = chars_of(self.items[i].content.as_str());
            let text_ok = contains_ci_exec(&cv, &qv);
            let cat_ok = match &filters.category {
                Some(c) => str_eq(self.items[i].category.as_str(), c.as_str()),
                None => true,
            };
            let app_ok = match &filters.source_app {
                Some(a) => str_eq(self.items[i].source_app.as_str(), a.as_str()),
                None => true,
            };
            let kind_ok = match &filters.content_type {
                Some(t) => str_eq(self.items[i].content_type.as_str(), t.as_str()),
                None => true,
            };
            let from_ok = match filters.date_from {
                Some(d) => self.items[i].copied_at >= d,
                None => true,
            };
            let to_ok = match filters.date_to {
                Some(d) => self.items[i].copied_at <= d,
                None => true,
            };
            let keep = !self.items[i].is_sensitive && text_ok && cat_ok && app_ok && kind_ok
                && from_ok && to_ok;
            proof {
                assert(keep == (search_fn(query@, filters))(self.items@[i as int]));
            }
            if keep {
                sel.push(self.items[i].duplicate());
            }
            proof {
                assert(sel@ =~= self.items@.take(i + 1).filter(search_fn(query@, filters)));
            }
            i = i + 1;
        }
        proof {
            assert(self.items@.take(n as int) =~= self.items@);
        }
        let sorted = sort_items(SortOrder::Recency, &sel);
        let total = sorted.len();
        let lim = limit as usize;
        let cnt = if lim <= total {
            lim
        } else {
            total
        };
        let mut out: Vec<ClipboardItem> = Vec::new();
        let mut j: usize = 0;
        while j < cnt
            invariant
                total == sorted@.len(),
                cnt <= total,
                j <= cnt,
                out@ == sorted@.subrange(0, j as int),
            decreases cnt - j,
        {
            out.push(sorted[j].duplicate());
            proof {
                assert(out@ =~= sorted@.subrange(0, j + 1));
            }
            j = j + 1;
        }
        proof {
            assert(out@ =~= sort_spec(SortOrder::Recency, sel@).take(cnt as int));
            assert forall|k: int| 0 <= k < out@.len() implies !(#[trigger] out@[k]).is_sensitive by {
                assert(out@[k] == sorted@[k]);
                assert(sel@.contains(sorted@[k]));
                let w = choose|w: int| 0 <= w < sel@.len() && sel@[w] == sorted@[k];
                assert(sel@[w] == out@[k]);
            }
            assert forall|a: int, b: int| 0 <= a < b < out@.len() implies !item_before(
                SortOrder::Recency,
                #[trigger] out@[b],
                #[trigger] out@[a],
            ) by {
                assert(out@[a] == sorted@[a]);
                assert(out@[b] == sorted@[b]);
            }
        }
        out
    }

    /// Path safety for image reads: the canonicalized path must sit inside
    /// the image-storage root, and must be recorded in some stored row —
    /// under its canonical form, or as originally requested. Anything else
    /// is refused, whether or not a file exists there.
    pub fn read_image_allowed(
        &self,
        canonical_path: &str,
        requested_path: &str,
        images_root: &str,
    ) -> (r: bool)
        ensures
            r == (path_within_root(canonical_path@, images_root@) && (has_image_path(
                self.items@,
                canonical_path@,
            ) || has_image_path(self.items@, requested_path@))),
    {
        let cv = chars_of(canonical_path);
        let rl = images_root.unicode_len();
        let inside = if str_eq(canonical_path, images_root) {
            true
        } else if cv.len() > rl && crate::text::prefix_at_exec(&cv, 0, images_root) {
            proof {
                assert(cv@.take(rl as int) =~= images_root@);
            }
            cv[rl] == '/'
        } else {
            proof {
                if canonical_path@.len() > images_root@.len() && canonical_path@.take(
                    images_root@.len() as int,
                ) == images_root@ {
                    assert forall|k: int| 0 <= k < images_root@.len() implies cv@[0 + k] == (
                    #[trigger] images_root@[k]) by {
                        assert(canonical_path@.take(images_root@.len() as int)[k]
                            == canonical_path@[k]);
                    }
                    assert(crate::text::prefix_at(cv@, 0, images_root@));
                }
            }
            false
        };
        if !inside {
            return false;
        }
        if self.image_path_exists(canonical_path) {
            return true;
        }
        self.image_path_exists(requested_path)
    }
}


/// The visibility filter of listing and search: sensitive rows never
/// appear.
pub open spec fn visible_fn() -> spec_fn(ClipboardItem) -> bool {
    |it: ClipboardItem| !it.is_sensitive
}

/// The rows that age-based cleanup keeps: favorites, and anything at or
/// after the threshold.
pub open spec fn keep_fn(th: int) -> spec_fn(ClipboardItem) -> bool {
    |it: ClipboardItem| it.is_favorite || it.copied_at >= th
}

/// The cutoff timestamp: `now` minus the retention window, the window
/// capped at ten years, the subtraction saturating.
pub open spec fn expiry_threshold(retention_days: int, now: int) -> int {
    let capped = if retention_days <= 3650 {
        retention_days
    } else {
        3650
    };
    let t = now - capped * 86400;
    if t < i64::MIN {
        i64::MIN as int
    } else {
        t
    }
}

/// An expired image row whose file becomes an orphan.
pub open spec fn expired_image(it: ClipboardItem, th: int) -> bool {
    &&& !it.is_favorite
    &&& it.copied_at < th
    &&& it.content_type@ == "image"@
    &&& it.image_path is Some
}

/// The image paths of the rows that age-based cleanup deletes, in row
/// order.
pub open spec fn expired_paths(s: Seq<ClipboardItem>, th: int) -> Seq<String>
    decreases s.len(),
{
    if s.len() == 0 {
        Seq::empty()
    } else {
        expired_paths(s.drop_last(), th) + if expired_image(s.last(), th) {
            seq![s.last().image_path->0]
        } else {
            Seq::empty()
        }
    }
}

/// The equality filters of `search`, beside the full-text match.
pub open spec fn matches_filters(it: ClipboardItem, f: SearchFilters) -> bool {
    &&& (f.category is Some ==> it.category@ == f.category->0@)
    &&& (f.source_app is Some ==> it.source_app@ == f.source_app->0@)
    &&& (f.content_type is Some ==> it.content_type@ == f.content_type->0@)
    &&& (f.date_from is Some ==> it.copied_at >= f.date_from->0)
    &&& (f.date_to is Some ==> it.copied_at <= f.date_to->0)
}

/// What `search` selects: visible rows whose content holds the query
/// case-insensitively and which pass every filter.
pub open spec fn search_fn(q: Seq<char>, f: SearchFilters) -> spec_fn(ClipboardItem) -> bool {
    |it: ClipboardItem| !it.is_sensitive && contains_ci(it.content@, q) && matches_filters(it, f)
}

/// The canonical path sits inside the image-storage root: it is the root
/// itself, or continues it across a path separator.
pub open spec fn path_within_root(path: Seq<char>, root: Seq<char>) -> bool {
    ||| path == root
    ||| (path.len() > root.len() && path.take(root.len() as int) == root && path[root.len() as int]
        == '/')
}

/// The index of the row that eviction removes next: the eviction-first
/// non-favorite, or nothing when every row is a favorite.
fn find_victim(items: &Vec<ClipboardItem>) -> (r: Option<usize>)
    ensures
        r is None ==> victim_idx(items@) == -1,
        r is Some ==> r->0 as int == victim_idx(items@) && (r->0 as int) < items@.len(),
{
    let n = items.len();
    let mut best: Option<usize> = None;
    let mut k: usize = 0;
    while k < n
        invariant
            n == items@.len(),
            k <= n,
            best is None ==> victim_idx_upto(items@, k as int) == -1,
            best is Some ==> best->0 as int == victim_idx_upto(items@, k as int) && (best->0 as int)
                < k,
        decreases n - k,
    {
        let better = if !items[k].is_favorite {
            match best {
                None => true,
                Some(b) => item_before_exec(SortOrder::Oldest, &items[k], &items[b]),
            }
        } else {
            false
        };
        if better {
            best = Some(k);
        }
        k = k + 1;
    }
    best
}

} // verus!
