use crate::classifier::{detect_category, spec_category};
use crate::digest::{digest_hex_of, digest_hex_of_text, digest_of_bytes, digest_of_text};
use crate::imaging::{
    build_image_filename, encode_rgba_to_png, image_filename_spec, png_bytes_of, rgba_dims_ok,
};
use crate::sensitive::{is_sensitive, spec_is_sensitive};
use crate::store::exclusions_contain;
use crate::text::{dec_str, str_eq};
use vstd::prelude::*;
use vstd::string::StrSliceExecFns;
use vstd::string::StringExecFns;

verus! {

/// One newly observed clipboard change, normalized for ingestion. Produced
/// by the per-tick decision functions, consumed once by the bridge that
/// writes it into the store.
#[derive(Debug)]
pub struct NewClipboardItem {
    pub content: String,
    pub content_type: String,
    pub image_path: Option<String>,
    pub category: String,
    pub source_app: String,
    pub is_sensitive: bool,
    pub hash: String,
    pub preview: String,
    pub copied_at: i64,
}

/// An accepted image capture: the event, the encoded bytes, and the file
/// path they must be written to before the event is forwarded.
#[derive(Debug)]
pub struct ImageCapture {
    pub item: NewClipboardItem,
    pub png_bytes: Vec<u8>,
    pub file_path: String,
}

/// The option holds exactly this digest.
pub open spec fn matches_opt(o: Option<String>, d: Seq<char>) -> bool {
    o is Some && o->0@ == d
}

/// The display preview of a text: its first 80 characters, a horizontal
/// ellipsis appended when that truncates, split only on character
/// boundaries.
pub open spec fn preview_of(s: Seq<char>) -> Seq<char> {
    if s.len() > 80 {
        s.take(80) + "\u{2026}"@
    } else {
        s
    }
}

/// The display preview of an image: its pixel dimensions, or a plain
/// fallback when they are unavailable.
pub open spec fn image_preview_of(width: int, height: int) -> Seq<char> {
    if width > 0 && height > 0 {
        "Image "@ + dec_str(width as nat) + "\u{d7}"@ + dec_str(height as nat)
    } else {
        "Image"@
    }
}

fn make_preview(text: &str) -> (r: String)
    ensures
        r@ == preview_of(text@),
{
    let n = text.unicode_len();
    if n > 80 {
        let head = text.substring_char(0, 80);
        let mut p = head.to_owned();
        proof {
            reveal_strlit("\u{2026}");
        }
        p.append("\u{2026}");
        p
    } else {
        text.to_owned()
    }
}

fn make_image_preview(width: usize, height: usize) -> (r: String)
    ensures
        r@ == image_preview_of(width as int, height as int),
{
    if width > 0 && height > 0 {
        proof {
            reveal_strlit("Image ");
            reveal_strlit("\u{d7}");
        }
        let mut p = "Image ".to_owned();
        let w = crate::text::u64_to_string(width as u64);
        p.append(w.as_str());
        p.append("\u{d7}");
        let h = crate::text::u64_to_string(height as u64);
        p.append(h.as_str());
        proof {
            assert(p@ =~= image_preview_of(width as int, height as int));
        }
        p
    } else {
        "Image".to_owned()
    }
}

fn contains_name(v: &Vec<String>, name: &str) -> (r: bool)
    ensures
        r == exclusions_contain(v@, name@),
{
    let n = v.len();
    let mut i: usize = 0;
    while i < n
        invariant
            n == v@.len(),
            i <= n,
            forall|k: int| 0 <= k < i ==> (#[trigger] v@[k])@ != name@,
        decreases n - i,
    {
        if str_eq(v[i].as_str(), name) {
            return true;
        }
        i = i + 1;
    }
    false
}

/// The per-tick decision state of the capture poller.
///
/// Holds the digest last observed on the clipboard, the digest most
/// recently written back by the application itself (the self-echo), and a
/// live mirror of the capture-relevant configuration. The timed loop, the
/// clipboard reads, the clock and the file writes live outside; they hand
/// each observation in as plain values and perform whatever an accepted
/// capture asks for.
pub struct ClipboardMonitor {
    /// The digest of the clipboard content last observed, updated once a
    /// new digest is seen even if the capture is then rejected.
    pub last_hash: Option<String>,
    /// The digest of what this application itself last wrote to the
    /// clipboard; suppresses the read-after-write feedback loop.
    pub last_copied_hash: Option<String>,
    /// Whether sensitive text is dropped before it reaches the store.
    pub auto_exclude_sensitive: bool,
    /// Application names whose copies are never captured.
    pub exclusions: Vec<String>,
    /// The raw-buffer size limit for image captures, in megabytes.
    pub max_image_size_mb: u32,
    /// The directory under which encoded images are stored.
    pub images_dir: String,
}

impl ClipboardMonitor {
    /// A monitor with nothing yet observed and the default configuration.
    pub fn new(images_dir: String) -> (m: ClipboardMonitor)
        ensures
            m.last_hash is None,
            m.last_copied_hash is None,
            m.auto_exclude_sensitive == true,
            m.exclusions@ == Seq::<String>::empty(),
            m.max_image_size_mb == 5,
            m.images_dir == images_dir,
    {
        ClipboardMonitor {
            last_hash: None,
            last_copied_hash: None,
            auto_exclude_sensitive: true,
            exclusions: Vec::new(),
            max_image_size_mb: 5,
            images_dir,
        }
    }

    /// Records the digest of content the application itself just wrote to
    /// the clipboard, so the next poll does not re-capture it.
    pub fn set_last_copied_hash(&mut self, hash: String)
        ensures
            final(self).last_copied_hash == Some(hash),
            final(self).last_hash == old(self).last_hash,
            final(self).auto_exclude_sensitive == old(self).auto_exclude_sensitive,
            final(self).exclusions@ == old(self).exclusions@,
            final(self).max_image_size_mb == old(self).max_image_size_mb,
            final(self).images_dir == old(self).images_dir,
    {
        self.last_copied_hash = Some(hash);
    }

    /// Mirrors the auto-exclude-sensitive setting into the live
    /// configuration.
    pub fn set_auto_exclude_sensitive(&mut self, enabled: bool)
        ensures
            final(self).auto_exclude_sensitive == enabled,
            final(self).last_hash == old(self).last_hash,
            final(self).last_copied_hash == old(self).last_copied_hash,
            final(self).exclusions@ == old(self).exclusions@,
            final(self).max_image_size_mb == old(self).max_image_size_mb,
            final(self).images_dir == old(self).images_dir,
    {
        self.auto_exclude_sensitive = enabled;
    }

    /// Mirrors the exclusion list into the live configuration.
    pub fn set_exclusions(&mut self, exclusions: Vec<String>)
        ensures
            final(self).exclusions@ == exclusions@,
            final(self).last_hash == old(self).last_hash,
            final(self).last_copied_hash == old(self).last_copied_hash,
            final(self).auto_exclude_sensitive == old(self).auto_exclude_sensitive,
            final(self).max_image_size_mb == old(self).max_image_size_mb,
            final(self).images_dir == old(self).images_dir,
    {
        self.exclusions = exclusions;
    }

    /// Mirrors the image size limit into the live configuration.
    pub fn set_max_image_size_mb(&mut self, size_mb: u32)
        ensures
            final(self).max_image_size_mb == size_mb,
            final(self).last_hash == old(self).last_hash,
            final(self).last_copied_hash == old(self).last_copied_hash,
            final(self).auto_exclude_sensitive == old(self).auto_exclude_sensitive,
            final(self).exclusions@ == old(self).exclusions@,
            final(self).images_dir == old(self).images_dir,
    {
        self.max_image_size_mb = size_mb;
    }

    /// The image storage directory the monitor was configured with.
    pub fn images_dir(&self) -> (r: String)
        ensures
            r == self.images_dir,
    {
        self.images_dir.clone()
    }

    /// One poll tick's decision for a text observation.
    ///
    /// Content whose digest matches the last observed or the last
    /// self-written digest is skipped without any state change. A new
    /// digest always becomes the last observed one, even if the capture is
    /// then dropped for an excluded source application or for sensitive
    /// content under the auto-exclude setting. An accepted capture comes
    /// back classified, flagged, hashed and previewed, stamped with `now`.
    pub fn process_text(&mut self, text: &str, source_app: String, now: i64) -> (r: Option<
        NewClipboardItem,
    >)
        ensures
            final(self).last_copied_hash == old(self).last_copied_hash,
            final(self).auto_exclude_sensitive == old(self).auto_exclude_sensitive,
            final(self).exclusions@ == old(self).exclusions@,
            final(self).max_image_size_mb == old(self).max_image_size_mb,
            final(self).images_dir == old(self).images_dir,
            ({
                let h = digest_hex_of_text(text@);
                let seen = matches_opt(old(self).last_hash, h) || matches_opt(
                    old(self).last_copied_hash,
                    h,
                );
                let excluded = exclusions_contain(old(self).exclusions@, source_app@);
                let dropped = spec_is_sensitive(text@) && old(self).auto_exclude_sensitive;
                &&& (seen ==> r is None && final(self).last_hash == old(self).last_hash)
                &&& (!seen ==> final(self).last_hash is Some && final(self).last_hash->0@ == h)
                &&& (r is Some <==> !seen && !excluded && !dropped)
                &&& (r is Some ==> ({
                    &&& r->0.content@ == text@
                    &&& r->0.content_type@ == "text"@
                    &&& r->0.image_path is None
                    &&& r->0.category@ == spec_category(text@)
                    &&& r->0.source_app == source_app
                    &&& r->0.is_sensitive == spec_is_sensitive(text@)
                    &&& r->0.hash@ == h
                    &&& r->0.preview@ == preview_of(text@)
                    &&& r->0.copied_at == now
                }))
            }),
    {
        let h = digest_of_text(text);
        let seen_last = match &self.last_hash {
            Some(x) => str_eq(x.as_str(), h.as_str()),
            None => false,
        };
        let seen_copied = match &self.last_copied_hash {
            Some(x) => str_eq(x.as_str(), h.as_str()),
            None => false,
        };
        if seen_last || seen_copied {
            return None;
        }
        self.last_hash = Some(h.clone());
        if contains_name(&self.exclusions, source_app.as_str()) {
            return None;
        }
        let sens = is_sensitive(text);
        if sens && self.auto_exclude_sensitive {
            return None;
        }
        let category = detect_category(text);
        let preview = make_preview(text);
        Some(
            NewClipboardItem {
                content: text.to_owned(),
                content_type: "text".to_owned(),
                image_path: None,
                category,
                source_app,
                is_sensitive: sens,
                hash: h,
                preview,
                copied_at: now,
            },
        )
    }

    /// One poll tick's decision for an image observation, handed in as a
    /// flat RGBA buffer with its claimed dimensions.
    ///
    /// The digest suppression works as for text; a raw buffer over the
    /// live size limit is skipped before the observed digest updates, so
    /// it is reconsidered on later ticks. Past those checks the digest is
    /// recorded, the exclusion list consulted, and the buffer encoded; a
    /// buffer inconsistent with its dimensions encodes to nothing and no
    /// capture comes back, while a consistent buffer with non-zero
    /// dimensions always does. An accepted capture carries the encoded bytes
    /// and the file path — timestamp, then digest prefix — that the caller
    /// must write before forwarding the event.
    pub fn process_image(
        &mut self,
        bytes: &Vec<u8>,
        width: usize,
        height: usize,
        source_app: String,
        now_nanos: i64,
        now_secs: i64,
    ) -> (r: Option<ImageCapture>)
        ensures
            final(self).last_copied_hash == old(self).last_copied_hash,
            final(self).auto_exclude_sensitive == old(self).auto_exclude_sensitive,
            final(self).exclusions@ == old(self).exclusions@,
            final(self).max_image_size_mb == old(self).max_image_size_mb,
            final(self).images_dir == old(self).images_dir,
            ({
                let h = digest_hex_of(bytes@);
                let seen = matches_opt(old(self).last_hash, h) || matches_opt(
                    old(self).last_copied_hash,
                    h,
                );
                let too_big = bytes@.len() > old(self).max_image_size_mb * 1048576;
                let excluded = exclusions_contain(old(self).exclusions@, source_app@);
                &&& (seen || too_big ==> r is None && final(self).last_hash == old(self).last_hash)
                &&& (!seen && !too_big ==> final(self).last_hash is Some
                    && final(self).last_hash->0@ == h)
                &&& (!seen && !too_big && excluded ==> r is None)
                &&& (!seen && !too_big && !rgba_dims_ok(
                    bytes@.len() as int,
                    width as int,
                    height as int,
                ) ==> r is None)
                &&& (!seen && !too_big && !excluded && rgba_dims_ok(
                    bytes@.len() as int,
                    width as int,
                    height as int,
                ) && width >= 1 && height >= 1 ==> r is Some)
                &&& (r is Some ==> ({
                    &&& !seen
                    &&& !too_big
                    &&& !excluded
                    &&& rgba_dims_ok(bytes@.len() as int, width as int, height as int)
                    &&& r->0.png_bytes@ == png_bytes_of(bytes@, width as int, height as int)
                    &&& r->0.file_path@ == old(self).images_dir@ + "/"@ + image_filename_spec(
                        now_nanos as int,
                        h,
                    )
                    &&& r->0.item.content@ == image_preview_of(width as int, height as int)
                    &&& r->0.item.content_type@ == "image"@
                    &&& r->0.item.image_path == Some(r->0.file_path)
                    &&& r->0.item.category@ == "misc"@
                    &&& r->0.item.source_app == source_app
                    &&& r->0.item.is_sensitive == false
                    &&& r->0.item.hash@ == h
                    &&& r->0.item.preview@ == image_preview_of(width as int, height as int)
                    &&& r->0.item.copied_at == now_secs
                }))
            }),
    {
        let h = digest_of_bytes(bytes.as_slice());
        let seen_last = match &self.last_hash {
            Some(x) => str_eq(x.as_str(), h.as_str()),
            None => false,
        };
        let seen_copied = match &self.last_copied_hash {
            Some(x) => str_eq(x.as_str(), h.as_str()),
            None => false,
        };
        if seen_last || seen_copied {
            return None;
        }
        let size_limit: u64 = (self.max_image_size_mb as u64) * 1048576;
        if (bytes.len() as u64) > size_limit {
            return None;
        }
        self.last_hash = Some(h.clone());
        if contains_name(&self.exclusions, source_app.as_str()) {
            return None;
        }
        let png = match encode_rgba_to_png(bytes.as_slice(), width, height) {
            Some(p) => p,
            None => {
                return None;
            },
        };
        let filename = build_image_filename(now_nanos, h.as_str());
        let mut path = self.images_dir.clone();
        proof {
            reveal_strlit("/");
        }
        path.append("/");
        path.append(filename.as_str());
        let preview = make_image_preview(width, height);
        let preview_again = preview.clone();
        Some(
            ImageCapture {
                item: NewClipboardItem {
                    content: preview,
                    content_type: "image".to_owned(),
                    image_path: Some(path.clone()),
                    category: "misc".to_owned(),
                    source_app,
                    is_sensitive: false,
                    hash: h,
                    preview: preview_again,
                    copied_at: now_secs,
                },
                png_bytes: png,
                file_path: path,
            },
        )
    }
}

} // verus!
