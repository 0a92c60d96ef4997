use vstd::prelude::*;
use crate::json::{
    element_views, find_member, json_document, member_position, member_views, ElementShape, JsonDocument,
    JsonElement, JsonKind, KindShape, MemberShape, lemma_member_position_first,
};
use crate::text::{lemma_trim_idempotent, trim, trim_text};

verus! {

/// The address of Picarto's listing of the videos of `channel_name`.
pub open spec fn channel_videos_url_of(channel_name: Seq<char>) -> Seq<char> {
    "https://api.picarto.tv/api/v1/channel/name/"@ + channel_name + "/videos"@
}

/// The address of Picarto's listing of the videos of `channel_name`.
pub fn channel_videos_url(channel_name: &str) -> (r: String)
    ensures
        r@ == channel_videos_url_of(channel_name@),
{
    let mut url = String::from_str("https://api.picarto.tv/api/v1/channel/name/");
    url.append(channel_name);
    url.append("/videos");
    url
}

/// The value of the `Authorization` header that carries `access_token`.
pub open spec fn bearer_authorization_of(access_token: Seq<char>) -> Seq<char> {
    "Bearer "@ + access_token
}

/// The value of the `Authorization` header that carries `access_token`.
pub fn bearer_authorization(access_token: &str) -> (r: String)
    ensures
        r@ == bearer_authorization_of(access_token@),
{
    let mut value = String::from_str("Bearer ");
    value.append(access_token);
    value
}

/// One video of a channel listing.
pub struct VideoEntry {
    /// The JSON text of the entry's `id` member; `None` when the entry is no
    /// object or has no `id` member.
    pub id: Option<String>,
    /// The value of the entry's `file` member when it is a JSON string (the
    /// URL of the video's playlist), else its JSON text (`null` when the
    /// entry has no such member).
    pub file: String,
}

/// The text of an entry: its id, if any, and its file.
pub type EntryView = (Option<Seq<char>>, Seq<char>);

impl View for VideoEntry {
    type V = EntryView;

    open spec fn view(&self) -> EntryView {
        (
            match self.id {
                Some(id) => Some(id@),
                None => None,
            },
            self.file@,
        )
    }
}

/// The text of each entry.
pub open spec fn entry_views(entries: Seq<VideoEntry>) -> Seq<EntryView> {
    entries.map_values(|e: VideoEntry| e@)
}

/// Why no file was found for a video.
#[derive(Debug, PartialEq, Eq)]
pub enum LookupError {
    /// No entry of the listing has the id that was asked for.
    NoSuchVideo,
    /// The entry at this position, reached before any match, has no id.
    MalformedEntry(usize),
}

/// The search of `entries`, from position `i` on, for the first entry whose
/// id is `target`: its file, or the first entry without an id met before it.
pub open spec fn lookup_from(entries: Seq<EntryView>, target: Seq<char>, i: nat) -> Result<
    Seq<char>,
    LookupError,
>
    decreases entries.len() - i,
{
    if i >= entries.len() {
        Err(LookupError::NoSuchVideo)
    } else {
        match entries[i as int].0 {
            None => Err(LookupError::MalformedEntry(i as usize)),
            Some(id) => if id == target {
                Ok(entries[i as int].1)
            } else {
                lookup_from(entries, target, i + 1)
            },
        }
    }
}

/// The file of the video `video_id` in a channel listing; surrounding white
/// space in `video_id` is ignored.
pub open spec fn video_lookup(entries: Seq<EntryView>, video_id: Seq<char>) -> Result<
    Seq<char>,
    LookupError,
> {
    lookup_from(entries, trim(video_id), 0)
}

/// Finds the file of the video `video_id` in a channel listing: the first
/// entry whose id is `video_id` with surrounding white space removed.
pub fn find_video_file(entries: &Vec<VideoEntry>, video_id: &str) -> (r: Result<String, LookupError>)
    ensures
        match r {
            Ok(file) => video_lookup(entry_views(entries@), video_id@) == Ok::<
                Seq<char>,
                LookupError,
            >(file@),
            Err(e) => video_lookup(entry_views(entries@), video_id@) == Err::<Seq<char>, LookupError>(
                e,
            ),
        },
{
    let target = trim_text(video_id);
    let n = entries.len();
    let mut i: usize = 0;
    while i < n
        invariant
            n == entries.len(),
            i <= n,
            video_lookup(entry_views(entries@), video_id@) == lookup_from(
                entry_views(entries@),
                target@,
                i as nat,
            ),
            target@ == trim(video_id@),
        decreases n - i,
    {
        match &entries[i].id {
            None => {
                return Err(LookupError::MalformedEntry(i));
            },
            Some(id) => {
                if *id == target {
                    return Ok(entries[i].file.clone());
                }
            },
        }
        i = i + 1;
    }
    Err(LookupError::NoSuchVideo)
}

/// The entry an element of a channel listing stands for: the text of its
/// `id` member, if any, and its `file` member, by value when it is a string,
/// else by its text (`null` when there is no such member).
pub open spec fn entry_view_of(element: ElementShape) -> EntryView {
    let members = element.1;
    let id = match member_position(members, "id"@, 0) {
        Some(p) => Some(members[p].2),
        None => None,
    };
    let file = match member_position(members, "file"@, 0) {
        Some(p) => match members[p].1 {
            KindShape::Str(url) => url,
            _ => members[p].2,
        },
        None => "null"@,
    };
    (id, file)
}

/// The entry of a channel listing that the element `element` stands for.
pub fn entry_of(element: &JsonElement) -> (r: VideoEntry)
    ensures
        r@ == entry_view_of(element@),
{
    let members = &element.members;
    let id = match find_member(members, "id") {
        Some(p) => {
            assert(member_views(members@)[p as int] == members@[p as int]@);
            Some(members[p].text.clone())
        },
        None => None,
    };
    let file = match find_member(members, "file") {
        Some(p) => {
            assert(member_views(members@)[p as int] == members@[p as int]@);
            match &members[p].value {
                JsonKind::Str(url) => url.clone(),
                _ => members[p].text.clone(),
            }
        },
        None => String::from_str("null"),
    };
    VideoEntry { id, file }
}

/// The entries of a channel listing.
pub open spec fn listing_entries_of(elements: Seq<ElementShape>) -> Seq<EntryView> {
    elements.map_values(|e: ElementShape| entry_view_of(e))
}

/// The lookup of `video_id` in the channel listing `body`: `None` when the
/// body is no JSON array.
pub open spec fn listing_lookup(body: Seq<u8>, video_id: Seq<char>) -> Option<
    Result<Seq<char>, LookupError>,
> {
    match json_document(body) {
        Some(document) => if document.0 is Array {
            Some(video_lookup(listing_entries_of(document.1), video_id))
        } else {
            None
        },
        None => None,
    }
}

/// Finds the playlist URL of the video `video_id` in the channel listing
/// `body` (the JSON answer of `channel_videos_url`).
pub fn find_video_file_in_listing(body: &[u8], video_id: &str) -> (r: Option<
    Result<String, LookupError>,
>)
    ensures
        match r {
            None => listing_lookup(body@, video_id@) is None,
            Some(Ok(file)) => listing_lookup(body@, video_id@) == Some(
                Ok::<Seq<char>, LookupError>(file@),
            ),
            Some(Err(e)) => listing_lookup(body@, video_id@) == Some(
                Err::<Seq<char>, LookupError>(e),
            ),
        },
{
    let document = match JsonDocument::parse(body) {
        Some(d) => d,
        None => {
            return None;
        },
    };
    match document.value {
        JsonKind::Array => {},
        _ => {
            return None;
        },
    }
    let elements = &document.elements;
    let mut entries: Vec<VideoEntry> = Vec::new();
    let n = elements.len();
    for i in 0..n
        invariant
            n == elements.len(),
            entry_views(entries@) == listing_entries_of(element_views(elements@)).take(i as int),
    {
        let entry = entry_of(&elements[i]);
        assert(element_views(elements@)[i as int] == elements@[i as int]@);
        let ghost before = entries@;
        entries.push(entry);
        assert(entry_views(entries@) =~= entry_views(before).push(entry@));
        assert(entry_views(entries@) =~= listing_entries_of(element_views(elements@)).take(i + 1));
    }
    assert(listing_entries_of(element_views(elements@)).take(n as int) =~= listing_entries_of(
        element_views(elements@),
    ));
    Some(find_video_file(&entries, video_id))
}

/// Looking a video up by an id with surrounding white space gives what
/// looking it up by the bare id gives.
pub proof fn lemma_lookup_ignores_surrounding_space(entries: Seq<EntryView>, video_id: Seq<char>)
    ensures
        video_lookup(entries, video_id) == video_lookup(entries, trim(video_id)),
{
    lemma_trim_idempotent(video_id);
}

/// The entry's id is `target`.
pub open spec fn has_id(entry: EntryView, target: Seq<char>) -> bool {
    entry.0 == Some(target)
}

/// The entry has an id, and it is not `target`.
pub open spec fn has_other_id(entry: EntryView, target: Seq<char>) -> bool {
    entry.0 is Some && entry.0 != Some(target)
}

/// A file found for a video is the file of an entry with that id, and every
/// entry before it has another id.
pub proof fn lemma_lookup_found(entries: Seq<EntryView>, target: Seq<char>, i: nat)
    requires
        lookup_from(entries, target, i) is Ok,
    ensures
        exists|k: int|
            #![trigger entries[k]]
            i <= k < entries.len() && has_id(entries[k], target) && lookup_from(entries, target, i)
                == Ok::<Seq<char>, LookupError>(entries[k].1) && forall|m: int|
                i <= m < k ==> has_other_id(#[trigger] entries[m], target),
    decreases entries.len() - i,
{
    let e = entries[i as int];
    if has_id(e, target) {
        assert(forall|m: int| i <= m < i ==> has_other_id(#[trigger] entries[m], target));
    } else {
        lemma_lookup_found(entries, target, i + 1);
        let k = choose|k: int|
            #![trigger entries[k]]
            i + 1 <= k < entries.len() && has_id(entries[k], target) && lookup_from(
                entries,
                target,
                i + 1,
            ) == Ok::<Seq<char>, LookupError>(entries[k].1) && forall|m: int|
                i + 1 <= m < k ==> has_other_id(#[trigger] entries[m], target);
        assert forall|m: int| i <= m < k implies has_other_id(#[trigger] entries[m], target) by {
            if m == i {
            }
        }
    }
}

/// A failed lookup either found no entry with the id, every entry having
/// another id, or met an entry without an id, every entry before it having
/// another id.
pub proof fn lemma_lookup_failed(entries: Seq<EntryView>, target: Seq<char>, i: nat)
    requires
        entries.len() <= usize::MAX,
    ensures
        lookup_from(entries, target, i) == Err::<Seq<char>, LookupError>(LookupError::NoSuchVideo)
            ==> forall|m: int| i <= m < entries.len() ==> has_other_id(#[trigger] entries[m], target),
        lookup_from(entries, target, i) matches Err(LookupError::MalformedEntry(p)) ==> {
            &&& i <= p < entries.len()
            &&& entries[p as int].0 is None
            &&& forall|m: int| i <= m < p ==> has_other_id(#[trigger] entries[m], target)
        },
    decreases entries.len() - i,
{
    if i < entries.len() {
        lemma_lookup_failed(entries, target, i + 1);
        if has_other_id(entries[i as int], target) {
            assert forall|m: int| i <= m < entries.len() && lookup_from(entries, target, i) == Err::<
                Seq<char>,
                LookupError,
            >(LookupError::NoSuchVideo) implies has_other_id(#[trigger] entries[m], target) by {
                if m == i {
                }
            }
            if let Err(LookupError::MalformedEntry(p)) = lookup_from(entries, target, i) {
                assert forall|m: int| i <= m < p implies has_other_id(#[trigger] entries[m], target) by {
                    if m == i {
                    }
                }
            }
        }
    }
}

proof fn lemma_lookup_from_reaches(entries: Seq<EntryView>, target: Seq<char>, i: nat, k: int)
    requires
        i <= k < entries.len(),
        entries[k].0 == Some(target),
        forall|m: int| i <= m < k ==> has_other_id(#[trigger] entries[m], target),
    ensures
        lookup_from(entries, target, i) == Ok::<Seq<char>, LookupError>(entries[k].1),
    decreases k - i,
{
    if i < k {
        assert(has_other_id(entries[i as int], target));
        lemma_lookup_from_reaches(entries, target, i + 1, k);
    }
}

/// The video found is the first entry whose id is the whole video id with
/// surrounding white space removed, however long that id is.
pub proof fn lemma_lookup_finds_first_match(entries: Seq<EntryView>, video_id: Seq<char>, k: int)
    requires
        0 <= k < entries.len(),
        entries[k].0 == Some(trim(video_id)),
        forall|m: int| 0 <= m < k ==> has_other_id(#[trigger] entries[m], trim(video_id)),
    ensures
        video_lookup(entries, video_id) == Ok::<Seq<char>, LookupError>(entries[k].1),
{
    lemma_lookup_from_reaches(entries, trim(video_id), 0, k);
}

/// A file found for a video belongs to an entry whose id is the whole video
/// id with surrounding white space removed.
pub proof fn lemma_lookup_result_has_the_id(entries: Seq<EntryView>, video_id: Seq<char>, file: Seq<char>)
    requires
        video_lookup(entries, video_id) == Ok::<Seq<char>, LookupError>(file),
    ensures
        exists|k: int|
            0 <= k < entries.len() && #[trigger] entries[k].0 == Some(trim(video_id)) && entries[k].1
                == file,
{
    lemma_lookup_found(entries, trim(video_id), 0);
    let k = choose|k: int|
        #![trigger entries[k]]
        0 <= k < entries.len() && has_id(entries[k], trim(video_id)) && lookup_from(
            entries,
            trim(video_id),
            0,
        ) == Ok::<Seq<char>, LookupError>(entries[k].1) && forall|m: int|
            0 <= m < k ==> has_other_id(#[trigger] entries[m], trim(video_id));
    assert(entries[k].0 == Some(trim(video_id)) && entries[k].1 == file);
}

/// The listing address is the API prefix, the whole channel name, and
/// `/videos`.
pub proof fn lemma_channel_videos_url_holds_the_name(channel_name: Seq<char>)
    ensures
        channel_videos_url_of(channel_name).len() == channel_name.len() + 50,
        channel_videos_url_of(channel_name).take(43) == "https://api.picarto.tv/api/v1/channel/name/"@,
        channel_videos_url_of(channel_name).subrange(43, (43 + channel_name.len()) as int) == channel_name,
        channel_videos_url_of(channel_name).skip((43 + channel_name.len()) as int) == "/videos"@,
{
    reveal_strlit("https://api.picarto.tv/api/v1/channel/name/");
    reveal_strlit("/videos");
    let u = channel_videos_url_of(channel_name);
    assert(u.take(43) =~= "https://api.picarto.tv/api/v1/channel/name/"@);
    assert(u.subrange(43, (43 + channel_name.len()) as int) =~= channel_name);
    assert(u.skip((43 + channel_name.len()) as int) =~= "/videos"@);
}

/// The header value is `Bearer ` followed by the whole token.
pub proof fn lemma_bearer_authorization_holds_the_token(access_token: Seq<char>)
    ensures
        bearer_authorization_of(access_token).len() == access_token.len() + 7,
        bearer_authorization_of(access_token).take(7) == "Bearer "@,
        bearer_authorization_of(access_token).skip(7) == access_token,
{
    reveal_strlit("Bearer ");
    let b = bearer_authorization_of(access_token);
    assert(b.take(7) =~= "Bearer "@);
    assert(b.skip(7) =~= access_token);
}

/// `p` is the position of the first member with the key `key`.
pub open spec fn first_with_key(members: Seq<MemberShape>, key: Seq<char>, p: int) -> bool {
    &&& 0 <= p < members.len()
    &&& members[p].0 == key
    &&& forall|m: int| 0 <= m < p ==> (#[trigger] members[m]).0 != key
}

/// An entry's id is the text of the element's first `id` member and is
/// missing only when there is none; its file is the first `file` member's
/// value when that is a string, else that member's text, and `null` when
/// there is none.
pub proof fn lemma_entry_of_element(element: ElementShape, p: int, q: int)
    ensures
        first_with_key(element.1, "id"@, p) ==> entry_view_of(element).0 == Some(element.1[p].2),
        (forall|m: int| 0 <= m < element.1.len() ==> (#[trigger] element.1[m]).0 != "id"@)
            ==> entry_view_of(element).0 is None,
        first_with_key(element.1, "file"@, q) ==> entry_view_of(element).1 == (match element.1[q].1 {
            KindShape::Str(url) => url,
            _ => element.1[q].2,
        }),
        (forall|m: int| 0 <= m < element.1.len() ==> (#[trigger] element.1[m]).0 != "file"@)
            ==> entry_view_of(element).1 == seq!['n', 'u', 'l', 'l'],
{
    reveal_strlit("null");
    lemma_member_position_first(element.1, "id"@, 0);
    lemma_member_position_first(element.1, "file"@, 0);
    if first_with_key(element.1, "id"@, p) {
        if let Some(r) = member_position(element.1, "id"@, 0) {
            if r < p {
                assert(element.1[r].0 != "id"@);
            } else if p < r {
                assert(element.1[p].0 != "id"@);
            }
        }
    }
    if first_with_key(element.1, "file"@, q) {
        if let Some(r) = member_position(element.1, "file"@, 0) {
            if r < q {
                assert(element.1[r].0 != "file"@);
            } else if q < r {
                assert(element.1[q].0 != "file"@);
            }
        }
    }
    if member_position(element.1, "id"@, 0) is Some {
        let r = member_position(element.1, "id"@, 0)->0;
        assert(element.1[r].0 == "id"@);
    }
    if member_position(element.1, "file"@, 0) is Some {
        let r = member_position(element.1, "file"@, 0)->0;
        assert(element.1[r].0 == "file"@);
    }
    assert("null"@ =~= seq!['n', 'u', 'l', 'l']);
}

/// A listing is looked into only when it is a JSON array, and then each of
/// its elements gives one entry, in order.
pub proof fn lemma_listing_lookup_over_elements(body: Seq<u8>, video_id: Seq<char>)
    ensures
        listing_lookup(body, video_id) is Some <==> (json_document(body) matches Some(d)
            && d.0 is Array),
        json_document(body) matches Some(d) ==> listing_entries_of(d.1).len() == d.1.len()
            && forall|i: int|
            0 <= i < d.1.len() ==> #[trigger] listing_entries_of(d.1)[i] == entry_view_of(d.1[i]),
{
}

} // verus!
