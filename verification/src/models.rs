use vstd::prelude::*;

verus! {

/// A persisted clipboard history row.
///
/// `content_type` is `"text"` or `"image"`; an image row's `image_path`
/// names the encoded file under the image-storage root. `hash` is the
/// content-addressed digest used for deduplication; the store never holds
/// two rows with the same digest.
#[derive(Debug)]
pub struct ClipboardItem {
    pub id: i64,
    pub content: String,
    pub content_type: String,
    pub image_path: Option<String>,
    pub category: String,
    pub source_app: String,
    pub preview: String,
    pub copied_at: i64,
    pub is_favorite: bool,
    pub is_sensitive: bool,
    pub hash: String,
}

/// Equality filters that `search` applies beside the full-text match.
/// `date_from` and `date_to` bound `copied_at` inclusively.
#[derive(Debug)]
pub struct SearchFilters {
    pub category: Option<String>,
    pub date_from: Option<i64>,
    pub date_to: Option<i64>,
    pub source_app: Option<String>,
    pub content_type: Option<String>,
}

/// The persisted, user-mutable configuration.
#[derive(Debug)]
pub struct Settings {
    pub retention_days: u32,
    pub max_items: u32,
    pub keyboard_shortcut: String,
    pub auto_exclude_sensitive: bool,
    pub max_image_size_mb: u32,
}

/// The configuration used until the first explicit update.
pub open spec fn is_default_settings(s: Settings) -> bool {
    &&& s.retention_days == 30
    &&& s.max_items == 1000
    &&& s.keyboard_shortcut@ == "CmdOrCtrl+Shift+V"@
    &&& s.auto_exclude_sensitive == true
    &&& s.max_image_size_mb == 5
}

/// The bounds that `update_settings` enforces before applying a value.
pub open spec fn settings_valid(s: Settings) -> bool {
    &&& 10 <= s.max_items <= 100000
    &&& s.retention_days >= 1
    &&& 1 <= s.max_image_size_mb <= 100
}

impl Default for Settings {
    /// The configuration used until the first explicit update.
    fn default() -> (s: Settings)
        ensures
            is_default_settings(s),
            settings_valid(s),
    {
        Settings {
            retention_days: 30,
            max_items: 1000,
            keyboard_shortcut: "CmdOrCtrl+Shift+V".to_owned(),
            auto_exclude_sensitive: true,
            max_image_size_mb: 5,
        }
    }
}

impl Settings {
    /// An owned copy, field for field.
    pub fn duplicate(&self) -> (s: Settings)
        ensures
            s == *self,
    {
        Settings {
            retention_days: self.retention_days,
            max_items: self.max_items,
            keyboard_shortcut: self.keyboard_shortcut.clone(),
            auto_exclude_sensitive: self.auto_exclude_sensitive,
            max_image_size_mb: self.max_image_size_mb,
        }
    }
}

impl ClipboardItem {
    /// An owned copy, field for field.
    pub fn duplicate(&self) -> (r: ClipboardItem)
        ensures
            r == *self,
    {
        ClipboardItem {
            id: self.id,
            content: self.content.clone(),
            content_type: self.content_type.clone(),
            image_path: match &self.image_path {
                Some(p) => Some(p.clone()),
                None => None,
            },
            category: self.category.clone(),
            source_app: self.source_app.clone(),
            preview: self.preview.clone(),
            copied_at: self.copied_at,
            is_favorite: self.is_favorite,
            is_sensitive: self.is_sensitive,
            hash: self.hash.clone(),
        }
    }
}

} // verus!
