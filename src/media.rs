//! Media items (prints, stickers, emoji, inventory items) that the remote
//! inventory check resolves, and how its loosely-shaped answers are read.
use vstd::prelude::*;
use crate::avatar::{chars_of, cfirst, cfind, chars_equal};
use crate::search::{lower_of, lowercase};

verus! {

/// A resolved media item.
pub struct MediaItem {
    pub id: String,
    pub item_type: String,
    pub owner_id: Option<String>,
    pub image_url: Option<String>,
    pub fetched_at: String,
}

/// `p` is a prefix of `s`.
pub open spec fn starts(s: Seq<char>, p: Seq<char>) -> bool {
    p.len() <= s.len() && s.subrange(0, p.len() as int) == p
}

/// ASCII lower case of one character.
pub open spec fn ascii_lower(c: char) -> char {
    if 'A' <= c && c <= 'Z' {
        (((c as u32) + 32) as u8) as char
    } else {
        c
    }
}

/// Equal ignoring ASCII case, as `str::eq_ignore_ascii_case` compares.
pub open spec fn eq_ascii_nocase(a: Seq<char>, b: Seq<char>) -> bool {
    a.len() == b.len() && forall|i: int| 0 <= i < a.len() ==> ascii_lower(#[trigger] a[i]) == ascii_lower(b[i])
}

pub open spec fn any_starts(v: Seq<Seq<char>>, p: Seq<char>) -> bool {
    exists|i: int| 0 <= i < v.len() && starts(#[trigger] v[i], p)
}

pub open spec fn any_nocase(v: Seq<Seq<char>>, w: Seq<char>) -> bool {
    exists|i: int| 0 <= i < v.len() && eq_ascii_nocase(#[trigger] v[i], w)
}

/// The item type that an inventory answer stands for. A declared type of
/// `print`, `sticker` or `emoji` is taken as it is; else the ids decide
/// (`prnt_`, `sticker_`, `emoji_`), then the metadata's template id, then
/// its tags; else the declared type, or `inventory` where none is declared.
pub open spec fn canonical_type(
    identifier: Seq<char>,
    declared: Seq<char>,
    ids: Seq<Seq<char>>,
    has_meta: bool,
    template: Option<Seq<char>>,
    tags: Seq<Seq<char>>,
) -> Seq<char> {
    if declared == "print"@ || declared == "sticker"@ || declared == "emoji"@ {
        declared
    } else if starts(identifier, "prnt_"@) || any_starts(ids, "prnt_"@) {
        "print"@
    } else if any_starts(ids, "sticker_"@) {
        "sticker"@
    } else if any_starts(ids, "emoji_"@) {
        "emoji"@
    } else if has_meta && template is Some && cfirst(lower_of(template->0), "sticker"@, 0) is Some {
        "sticker"@
    } else if has_meta && template is Some && cfirst(lower_of(template->0), "emoji"@, 0) is Some {
        "emoji"@
    } else if has_meta && any_nocase(tags, "sticker"@) {
        "sticker"@
    } else if has_meta && any_nocase(tags, "emoji"@) {
        "emoji"@
    } else if declared.len() == 0 {
        "inventory"@
    } else {
        declared
    }
}

fn is_text(s: &str, lit: &str) -> (r: bool)
    ensures
        r == (s@ == lit@),
{
    let a = chars_of(s);
    let b = chars_of(lit);
    chars_equal(a.as_slice(), b.as_slice())
}

fn starts_text(s: &str, p: &str) -> (r: bool)
    ensures
        r == starts(s@, p@),
{
    let a = chars_of(s);
    let b = chars_of(p);
    if b.len() > a.len() {
        return false;
    }
    let mut i: usize = 0;
    while i < b.len()
        invariant
            a@ == s@,
            b@ == p@,
            b@.len() <= a@.len(),
            i <= b@.len(),
            forall|k: int| 0 <= k < i ==> a@[k] == b@[k],
        decreases b.len() - i,
    {
        if a[i] != b[i] {
            assert(a@.subrange(0, b@.len() as int)[i as int] != b@[i as int]);
            return false;
        }
        i = i + 1;
    }
    assert(a@.subrange(0, b@.len() as int) =~= b@);
    true
}

fn lower_ascii(c: char) -> (r: char)
    ensures
        r == ascii_lower(c),
{
    if 'A' <= c && c <= 'Z' {
        (((c as u32) + 32) as u8) as char
    } else {
        c
    }
}

fn nocase(a: &str, w: &str) -> (r: bool)
    ensures
        r == eq_ascii_nocase(a@, w@),
{
    let x = chars_of(a);
    let y = chars_of(w);
    if x.len() != y.len() {
        return false;
    }
    let mut i: usize = 0;
    while i < x.len()
        invariant
            x@ == a@,
            y@ == w@,
            x@.len() == y@.len(),
            i <= x@.len(),
            forall|k: int| 0 <= k < i ==> ascii_lower(#[trigger] x@[k]) == ascii_lower(y@[k]),
        decreases x.len() - i,
    {
        if lower_ascii(x[i]) != lower_ascii(y[i]) {
            return false;
        }
        i = i + 1;
    }
    true
}

pub open spec fn str_views(v: Seq<String>) -> Seq<Seq<char>> {
    v.map_values(|s: String| s@)
}

fn any_prefix(v: &Vec<String>, p: &str) -> (r: bool)
    ensures
        r == any_starts(str_views(v@), p@),
{
    let mut i: usize = 0;
    while i < v.len()
        invariant
            i <= v@.len(),
            forall|k: int| 0 <= k < i ==> !starts(#[trigger] str_views(v@)[k], p@),
        decreases v.len() - i,
    {
        assert(str_views(v@)[i as int] == v@[i as int]@);
        if starts_text(v[i].as_str(), p) {
            return true;
        }
        i = i + 1;
    }
    false
}

fn any_tag(v: &Vec<String>, w: &str) -> (r: bool)
    ensures
        r == any_nocase(str_views(v@), w@),
{
    let mut i: usize = 0;
    while i < v.len()
        invariant
            i <= v@.len(),
            forall|k: int| 0 <= k < i ==> !eq_ascii_nocase(#[trigger] str_views(v@)[k], w@),
        decreases v.len() - i,
    {
        assert(str_views(v@)[i as int] == v@[i as int]@);
        if nocase(v[i].as_str(), w) {
            return true;
        }
        i = i + 1;
    }
    false
}

fn holds(hay: &str, needle: &str) -> (r: bool)
    ensures
        r == (cfirst(hay@, needle@, 0) is Some),
{
    let h = chars_of(hay);
    let n = chars_of(needle);
    cfind(h.as_slice(), n.as_slice()).is_some()
}

/// The item type that an inventory answer stands for; see `canonical_type`.
/// `declared` is the answer's item type, already in lower case.
pub fn canonical_item_type(
    identifier: &str,
    declared: &str,
    ids: &Vec<String>,
    has_meta: bool,
    template: Option<&str>,
    tags: &Vec<String>,
) -> (r: String)
    ensures
        r@ == canonical_type(
            identifier@,
            declared@,
            str_views(ids@),
            has_meta,
            match template {
                Some(t) => Some(t@),
                None => None,
            },
            str_views(tags@),
        ),
{
    if is_text(declared, "print") || is_text(declared, "sticker") || is_text(declared, "emoji") {
        return String::from_str(declared);
    }
    if starts_text(identifier, "prnt_") || any_prefix(ids, "prnt_") {
        return String::from_str("print");
    }
    if any_prefix(ids, "sticker_") {
        return String::from_str("sticker");
    }
    if any_prefix(ids, "emoji_") {
        return String::from_str("emoji");
    }
    if has_meta {
        if let Some(t) = template {
            let l = lowercase(t);
            if holds(l.as_str(), "sticker") {
                return String::from_str("sticker");
            }
            if holds(l.as_str(), "emoji") {
                return String::from_str("emoji");
            }
        }
        if any_tag(tags, "sticker") {
            return String::from_str("sticker");
        }
        if any_tag(tags, "emoji") {
            return String::from_str("emoji");
        }
    }
    if declared.unicode_len() == 0 {
        String::from_str("inventory")
    } else {
        String::from_str(declared)
    }
}

/// The id a media item is stored under: a print keeps its identifier; an
/// identifier already of the form `<owner>&<item>` is kept; else the
/// answer's owner and id make `<owner>&<id>` where both are known.
pub open spec fn media_id(
    identifier: Seq<char>,
    item_type: Seq<char>,
    owner: Option<Seq<char>>,
    id: Option<Seq<char>>,
) -> Seq<char> {
    if item_type == "print"@ || identifier.contains('&') {
        identifier
    } else if owner is Some && id is Some {
        owner->0 + "&"@ + id->0
    } else {
        identifier
    }
}

pub fn normalized_media_id(identifier: &str, item_type: &str, owner: Option<&str>, id: Option<&str>) -> (r: String)
    ensures
        r@ == media_id(
            identifier@,
            item_type@,
            match owner {
                Some(o) => Some(o@),
                None => None,
            },
            match id {
                Some(i) => Some(i@),
                None => None,
            },
        ),
{
    let amp = holds(identifier, "&");
    proof {
        reveal_strlit("&");
        if identifier@.contains('&') {
            let k = choose|k: int| 0 <= k < identifier@.len() && identifier@[k] == '&';
            assert("&"@.len() == 1);
            assert(identifier@.subrange(k, k + 1) =~= "&"@);
            assert(crate::avatar::cocc(identifier@, "&"@, k));
            crate::avatar::lemma_cfirst_some(identifier@, "&"@, 0, k);
        }
        if cfirst(identifier@, "&"@, 0) is Some {
            crate::avatar::lemma_cfirst_found(identifier@, "&"@, 0);
            let k = cfirst(identifier@, "&"@, 0)->0;
            assert(identifier@.subrange(k, k + 1)[0] == identifier@[k]);
        }
    }
    if is_text(item_type, "print") || amp {
        return String::from_str(identifier);
    }
    match (owner, id) {
        (Some(o), Some(i)) => {
            let mut r = String::from_str(o);
            r.append("&");
            r.append(i);
            r
        },
        _ => String::from_str(identifier),
    }
}

/// What a media item holds, as values.
pub struct MediaView {
    pub id: Seq<char>,
    pub item_type: Seq<char>,
    pub owner_id: Option<Seq<char>>,
    pub image_url: Option<Seq<char>>,
    pub fetched_at: Seq<char>,
}

pub open spec fn opt_chars(o: Option<String>) -> Option<Seq<char>> {
    match o {
        Some(s) => Some(s@),
        None => None,
    }
}

impl MediaItem {
    pub open spec fn view(&self) -> MediaView {
        MediaView {
            id: self.id@,
            item_type: self.item_type@,
            owner_id: opt_chars(self.owner_id),
            image_url: opt_chars(self.image_url),
            fetched_at: self.fetched_at@,
        }
    }
}

/// Some stored item has this id.
pub open spec fn has_id(items: Seq<MediaView>, id: Seq<char>) -> bool {
    exists|k: int| 0 <= k < items.len() && (#[trigger] items[k]).id == id
}

/// The stored media items, keyed by id.
pub struct MediaStore {
    items: Vec<MediaItem>,
}

impl MediaStore {
    pub closed spec fn view(&self) -> Seq<MediaView> {
        self.items@.map_values(|m: MediaItem| m.view())
    }

    pub fn new() -> (r: MediaStore)
        ensures
            r.view() == Seq::<MediaView>::empty(),
    {
        let r = MediaStore { items: Vec::new() };
        assert(r.view() =~= Seq::<MediaView>::empty());
        r
    }

    pub fn len(&self) -> (r: usize)
        ensures
            r == self.view().len(),
    {
        self.items.len()
    }

    /// Stores `item`, replacing the first stored item with the same id where
    /// there is one.
    pub fn upsert(&mut self, item: MediaItem)
        ensures
            has_id(old(self).view(), item.id@) ==> exists|k: int|
                0 <= k < old(self).view().len() && (#[trigger] old(self).view()[k]).id == item.id@
                    && (forall|j: int| 0 <= j < k ==> old(self).view()[j].id != item.id@)
                    && final(self).view() == old(self).view().update(k, item.view()),
            !has_id(old(self).view(), item.id@) ==> final(self).view() == old(self).view().push(item.view()),
    {
        let key = chars_of(item.id.as_str());
        let mut i: usize = 0;
        while i < self.items.len()
            invariant
                i <= self.items@.len(),
                key@ == item.id@,
                self.view() == old(self).view(),
                forall|k: int| 0 <= k < i ==> self.view()[k].id != item.id@,
            decreases self.items.len() - i,
        {
            let c = chars_of(self.items[i].id.as_str());
            assert(self.view()[i as int] == self.items@[i as int].view());
            if chars_equal(c.as_slice(), key.as_slice()) {
                let ghost before = self.view();
                let ghost v = item.view();
                self.items.set(i, item);
                assert(self.view() =~= before.update(i as int, v));
                return;
            }
            i = i + 1;
        }
        let ghost before = self.view();
        let ghost v = item.view();
        self.items.push(item);
        assert(self.view() =~= before.push(v));
    }

    /// Forgets every stored item.
    pub fn db_clear_media_items(&mut self)
        ensures
            final(self).view() == Seq::<MediaView>::empty(),
    {
        self.items = Vec::new();
        assert(self.view() =~= Seq::<MediaView>::empty());
    }
}

} // verus!
