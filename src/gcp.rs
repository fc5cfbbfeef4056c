//! Google Compute Engine disks: the identity parsed from a volume handle,
//! label sanitising and the read-merge-write label update.
use vstd::prelude::*;
use crate::error::Error;
use crate::labels::{compare_keys, Labels};
use crate::text::{
    ascii_lowered, chars_of, join_on, lemma_split_append, lemma_split_join, lemma_split_single, lower_of, push_char,
    split_chars, split_on, string_of, to_lowercase,
};
use vstd::string::*;

verus! {

/// The resource path of a disk: `projects/<p>/zones/<loc>/disks/<name>`, or
/// `regions` in place of `zones` for a regional disk.
pub open spec fn disk_path(project: Seq<char>, regional: bool, location: Seq<char>, name: Seq<char>) -> Seq<char> {
    "projects/"@ + project + "/"@ + (if regional { "regions"@ } else { "zones"@ }) + "/"@ + location
        + "/disks/"@ + name
}

/// A string of the shape of a disk's resource path, whose variable parts
/// hold no `/`.
pub open spec fn is_disk_path(s: Seq<char>) -> bool {
    exists|project: Seq<char>, regional: bool, location: Seq<char>, name: Seq<char>|
        !project.contains('/') && !location.contains('/') && !name.contains('/')
            && s == #[trigger] disk_path(project, regional, location, name)
}

/// What parsing a volume handle gives: project, location, whether the disk
/// is regional, and its name.
pub open spec fn parse_spec(s: Seq<char>) -> Option<(Seq<char>, Seq<char>, bool, Seq<char>)> {
    let parts = split_on(s, '/');
    if parts.len() == 6 && parts[0] == "projects"@ && parts[4] == "disks"@ && (parts[2] == "zones"@
        || parts[2] == "regions"@) {
        Some((parts[1], parts[3], parts[2] == "regions"@, parts[5]))
    } else {
        None
    }
}

/// A volume handle parses only if it is a disk's resource path: every string
/// of another shape gives no disk.
pub proof fn lemma_parse_rejects_other_shapes(s: Seq<char>)
    requires
        !is_disk_path(s),
    ensures
        parse_spec(s) is None,
{
    if parse_spec(s) is Some {
        let parts = split_on(s, '/');
        lemma_split_join(s, '/');
        reveal_with_fuel(join_on, 7);
        let d1 = parts.drop_last();
        let d2 = d1.drop_last();
        let d3 = d2.drop_last();
        let d4 = d3.drop_last();
        let d5 = d4.drop_last();
        assert(d5.len() == 1 && d5[0] == parts[0]);
        assert(join_on(d4, '/') == join_on(d5, '/').push('/') + d4.last());
        assert(join_on(d3, '/') == join_on(d4, '/').push('/') + d3.last());
        assert(join_on(d2, '/') == join_on(d3, '/').push('/') + d2.last());
        assert(join_on(d1, '/') == join_on(d2, '/').push('/') + d1.last());
        assert(join_on(parts, '/') == join_on(d1, '/').push('/') + parts.last());
        reveal_strlit("projects/");
        reveal_strlit("projects");
        reveal_strlit("/");
        reveal_strlit("/disks/");
        reveal_strlit("disks");
        reveal_strlit("regions");
        reveal_strlit("zones");
        let regional = parts[2] == "regions"@;
        assert(parts[2] == if regional { "regions"@ } else { "zones"@ });
        assert(s =~= disk_path(parts[1], regional, parts[3], parts[5]));
        assert(!parts[1].contains('/') && !parts[3].contains('/') && !parts[5].contains('/'));
        assert(is_disk_path(s));
    }
}

/// Every disk path parses, to exactly its parts.
pub proof fn lemma_parse_disk_path(project: Seq<char>, regional: bool, location: Seq<char>, name: Seq<char>)
    requires
        !project.contains('/'),
        !location.contains('/'),
        !name.contains('/'),
    ensures
        parse_spec(disk_path(project, regional, location, name)) == Some((project, location, regional, name)),
{
    reveal_strlit("projects/");
    reveal_strlit("projects");
    reveal_strlit("/");
    reveal_strlit("/disks/");
    reveal_strlit("disks");
    reveal_strlit("regions");
    reveal_strlit("zones");
    let kind = if regional { "regions"@ } else { "zones"@ };
    assert(!kind.contains('/')) by {
        if regional {
            assert forall|j: int| 0 <= j < kind.len() implies kind[j] != '/' by {}
        } else {
            assert forall|j: int| 0 <= j < kind.len() implies kind[j] != '/' by {}
        }
    }
    assert(!"projects"@.contains('/')) by {
        assert forall|j: int| 0 <= j < "projects"@.len() implies "projects"@[j] != '/' by {}
    }
    assert(!"disks"@.contains('/')) by {
        assert forall|j: int| 0 <= j < "disks"@.len() implies "disks"@[j] != '/' by {}
    }
    let s1 = "projects"@;
    let s2 = s1.push('/') + project;
    let s3 = s2.push('/') + kind;
    let s4 = s3.push('/') + location;
    let s5 = s4.push('/') + "disks"@;
    let s6 = s5.push('/') + name;
    assert(s6 =~= disk_path(project, regional, location, name));
    lemma_split_single(s1, '/');
    lemma_split_append(s1, project, '/');
    lemma_split_append(s2, kind, '/');
    lemma_split_append(s3, location, '/');
    lemma_split_append(s4, "disks"@, '/');
    lemma_split_append(s5, name, '/');
    let parts = split_on(s6, '/');
    assert(parts =~= seq![s1, project, kind, location, "disks"@, name]);
    assert(regional ==> kind == "regions"@);
    assert(!regional ==> kind != "regions"@);
}

/// A Compute Engine persistent disk, zonal or regional.
pub struct GcpDisk {
    pub project: String,
    pub location: String,
    pub regional: bool,
    pub name: String,
}

impl GcpDisk {
    /// The disk's resource path.
    pub open spec fn path_spec(&self) -> Seq<char> {
        disk_path(self.project@, self.regional, self.location@, self.name@)
    }

    /// The Compute API URL of the disk.
    pub fn api_path(&self) -> (r: String)
        ensures
            r@ == "https://compute.googleapis.com/compute/v1/"@ + self.path_spec(),
    {
        let loc_type = if self.regional { "regions" } else { "zones" };
        let mut s = String::from_str("https://compute.googleapis.com/compute/v1/");
        s.append("projects/");
        s.append(self.project.as_str());
        s.append("/");
        s.append(loc_type);
        s.append("/");
        s.append(self.location.as_str());
        s.append("/disks/");
        s.append(self.name.as_str());
        assert(s@ =~= "https://compute.googleapis.com/compute/v1/"@ + self.path_spec());
        s
    }

    /// The URL that sets the disk's labels.
    pub fn set_labels_url(&self) -> (r: String)
        ensures
            r@ == "https://compute.googleapis.com/compute/v1/"@ + self.path_spec() + "/setLabels"@,
    {
        let mut s = self.api_path();
        s.append("/setLabels");
        s
    }

    /// Parses a CSI volume handle, `projects/<p>/zones/<loc>/disks/<name>`
    /// or `projects/<p>/regions/<loc>/disks/<name>`; any other shape gives
    /// `None`.
    pub fn parse(volume_handle: &str) -> (r: Option<GcpDisk>)
        ensures
            match parse_spec(volume_handle@) {
                Some((p, l, reg, n)) => r is Some && r->0.project@ == p && r->0.location@ == l
                    && r->0.regional == reg && r->0.name@ == n,
                None => r is None,
            },
    {
        let cs = chars_of(volume_handle);
        let ghost s = volume_handle@;
        let parts = split_chars(&cs, '/');
        if parts.len() != 6 {
            return None;
        }
        let projects = chars_of("projects");
        let disks = chars_of("disks");
        let zones = chars_of("zones");
        let regions = chars_of("regions");
        if compare_keys(&parts[0], &projects) != 0 || compare_keys(&parts[4], &disks) != 0 {
            return None;
        }
        let regional = if compare_keys(&parts[2], &zones) == 0 {
            proof {
                reveal_strlit("zones");
                reveal_strlit("regions");
                assert(zones@ != regions@);
            }
            false
        } else if compare_keys(&parts[2], &regions) == 0 {
            true
        } else {
            return None;
        };
        Some(GcpDisk {
            project: string_of(&parts[1], 0, parts[1].len()),
            location: string_of(&parts[3], 0, parts[3].len()),
            regional,
            name: string_of(&parts[5], 0, parts[5].len()),
        })
    }
}


/// A character that a label may hold: `a`..`z`, `0`..`9`, `-` or `_`.
pub open spec fn is_label_char(c: char) -> bool {
    ('a' <= c && c <= 'z') || ('0' <= c && c <= '9') || c == '-' || c == '_'
}

/// The longest label key or value.
pub const MAX_LABEL_LEN: usize = 63;

/// Text that a label may hold as it is: at most 63 label characters.
pub open spec fn is_label_text(s: Seq<char>) -> bool {
    s.len() <= 63 && forall|i: int| 0 <= i < s.len() ==> is_label_char(#[trigger] s[i])
}

/// A label key: label text that starts with a lowercase letter.
pub open spec fn is_label_key(s: Seq<char>) -> bool {
    is_label_text(s) && s.len() >= 1 && 'a' <= s[0] && s[0] <= 'z'
}

/// Each character that a label may not hold turned into `-`, then cut to
/// 63 characters.
pub open spec fn label_text(s: Seq<char>) -> Seq<char> {
    let m = s.map_values(|c: char| if is_label_char(c) { c } else { '-' });
    if m.len() <= 63 {
        m
    } else {
        m.subrange(0, 63)
    }
}

/// A string sanitised for use as a label key or value.
pub open spec fn sanitised_text(s: Seq<char>) -> Seq<char> {
    label_text(lower_of(s))
}

/// A label key sanitised; none where the result does not start with a
/// lowercase letter.
pub open spec fn sanitised_key(s: Seq<char>) -> Option<Seq<char>> {
    let t = sanitised_text(s);
    if t.len() >= 1 && 'a' <= t[0] && t[0] <= 'z' {
        Some(t)
    } else {
        None
    }
}

fn is_label_char_exec(c: char) -> (r: bool)
    ensures
        r == is_label_char(c),
{
    ('a' <= c && c <= 'z') || ('0' <= c && c <= '9') || c == '-' || c == '_'
}

/// Turns an already lowercased string into label text: every character
/// outside `[a-z0-9_-]` becomes `-`, and at most 63 are kept.
pub fn label_from_lowercase(lower: &str) -> (r: String)
    ensures
        r@ == label_text(lower@),
        is_label_text(r@),
{
    let cs = chars_of(lower);
    let ghost m = lower@.map_values(|c: char| if is_label_char(c) { c } else { '-' });
    let n: usize = if cs.len() <= MAX_LABEL_LEN { cs.len() } else { MAX_LABEL_LEN };
    let mut out = String::new();
    let mut i: usize = 0;
    while i < n
        invariant
            cs@ == lower@,
            m == lower@.map_values(|c: char| if is_label_char(c) { c } else { '-' }),
            n <= cs.len(),
            n <= 63,
            i <= n,
            out@ == m.subrange(0, i as int),
        decreases n - i,
    {
        let c = cs[i];
        let d = if is_label_char_exec(c) { c } else { '-' };
        push_char(&mut out, d);
        i = i + 1;
        assert(out@ =~= m.subrange(0, i as int));
    }
    assert(out@ =~= label_text(lower@));
    out
}

/// Sanitises a string for use as a label key or value: lowercase it, turn
/// every character outside `[a-z0-9_-]` into `-`, keep at most 63. Text
/// that is already a label's comes back unchanged.
pub fn sanitise_gcp_label(input: &str) -> (r: String)
    ensures
        r@ == sanitised_text(input@),
        is_label_text(r@),
        is_label_text(input@) ==> r@ == input@,
{
    let lower = to_lowercase(input);
    proof {
        if is_label_text(input@) {
            assert forall|j: int| 0 <= j < input@.len() implies (input@[j] as u32) < 128 by {
                assert(is_label_char(input@[j]));
            }
            assert forall|j: int| 0 <= j < input@.len() implies #[trigger] lower@[j] == input@[j] by {
                assert(is_label_char(input@[j]));
                assert(ascii_lowered(input@[j], lower@[j]));
            }
            assert(lower@ =~= input@);
            assert(input@.map_values(|c: char| if is_label_char(c) { c } else { '-' }) =~= input@);
        }
    }
    label_from_lowercase(lower.as_str())
}

/// Sanitises a label key; `None` where the result does not start with a
/// lowercase letter.
pub fn sanitise_gcp_label_key(input: &str) -> (r: Option<String>)
    ensures
        match sanitised_key(input@) {
            Some(k) => r is Some && r->0@ == k,
            None => r is None,
        },
        r is Some ==> is_label_key(r->0@),
        is_label_key(input@) ==> r is Some && r->0@ == input@,
{
    let s = sanitise_gcp_label(input);
    let cs = chars_of(s.as_str());
    if cs.len() >= 1 && 'a' <= cs[0] && cs[0] <= 'z' {
        Some(s)
    } else {
        None
    }
}


/// The labels that a sequence of (key, value) pairs gives once sanitised,
/// taken in order: each kept key set to its sanitised value, a later pair
/// overriding an earlier one whose key sanitises the same.
pub open spec fn sanitised_pairs(p: Seq<(Seq<char>, Seq<char>)>) -> Map<Seq<char>, Seq<char>>
    decreases p.len(),
{
    if p.len() == 0 {
        Map::empty()
    } else {
        let rest = sanitised_pairs(p.drop_last());
        match sanitised_key(p.last().0) {
            Some(k) => rest.insert(k, sanitised_text(p.last().1)),
            None => rest,
        }
    }
}

/// Pairs that are labels as they stand: each key a label key, each value
/// label text.
pub open spec fn all_label_pairs(p: Seq<(Seq<char>, Seq<char>)>) -> bool {
    forall|i: int| 0 <= i < p.len() ==> is_label_key(#[trigger] p[i].0) && is_label_text(p[i].1)
}

/// Sanitises a whole label set, in key order. A key that does not sanitise
/// to something starting with a lowercase letter is left out.
pub fn sanitise_labels(labels: &Labels) -> (r: Labels)
    requires
        labels.wf(),
    ensures
        r.wf(),
        r@ == sanitised_pairs(labels.pairs()),
        forall|k: Seq<char>| #[trigger] r@.contains_key(k) ==> is_label_key(k) && is_label_text(r@[k]),
        forall|i: int|
            0 <= i < labels.pairs().len() && sanitised_key(#[trigger] labels.pairs()[i].0) is None
                ==> !r@.contains_key(sanitised_text(labels.pairs()[i].0)),
        all_label_pairs(labels.pairs()) ==> r@ == labels@,
{
    let ghost p = labels.pairs();
    let mut result = Labels::new();
    let mut i: usize = 0;
    let n = labels.len();
    while i < n
        invariant
            labels.wf(),
            p == labels.pairs(),
            n == p.len(),
            i <= n,
            result.wf(),
            result@ == sanitised_pairs(p.subrange(0, i as int)),
            forall|k: Seq<char>| #[trigger] result@.contains_key(k) ==> is_label_key(k) && is_label_text(result@[k]),
            all_label_pairs(p) ==> result@ == map_of_prefix(p, i as int),
        decreases n - i,
    {
        let (k, v) = labels.entry(i);
        proof {
            assert(p.subrange(0, i + 1).drop_last() =~= p.subrange(0, i as int));
            assert(p.subrange(0, i + 1).last() == p[i as int]);
            crate::labels::lemma_map_of_push(p, i as int);
        }
        match sanitise_gcp_label_key(k.as_str()) {
            Some(key) => {
                let value = sanitise_gcp_label(v.as_str());
                result.insert(key, value);
            },
            None => {},
        }
        i = i + 1;
    }
    assert(p.subrange(0, n as int) =~= p);
    result
}

/// The map of the first `n` pairs.
pub open spec fn map_of_prefix(p: Seq<(Seq<char>, Seq<char>)>, n: int) -> Map<Seq<char>, Seq<char>> {
    crate::labels::map_of(p.subrange(0, n))
}

/// The labels written back to the cloud: every current label whose key is
/// not among the incoming ones stays, every incoming label is set.
pub open spec fn merged(current: Map<Seq<char>, Seq<char>>, incoming: Map<Seq<char>, Seq<char>>) -> Map<Seq<char>, Seq<char>> {
    current.union_prefer_right(incoming)
}

/// Merges `incoming` into `current`; incoming values win on equal keys.
pub fn merge_labels(current: Labels, incoming: &Labels) -> (r: Labels)
    requires
        current.wf(),
        incoming.wf(),
    ensures
        r.wf(),
        r@ == merged(current@, incoming@),
{
    let ghost p = incoming.pairs();
    let ghost c = current@;
    let mut result = current;
    let n = incoming.len();
    let mut i: usize = 0;
    assert(map_of_prefix(p, 0) =~= Map::<Seq<char>, Seq<char>>::empty());
    assert(c.union_prefer_right(Map::<Seq<char>, Seq<char>>::empty()) =~= c);
    while i < n
        invariant
            incoming.wf(),
            p == incoming.pairs(),
            n == p.len(),
            i <= n,
            result.wf(),
            result@ == c.union_prefer_right(map_of_prefix(p, i as int)),
        decreases n - i,
    {
        let (k, v) = incoming.entry(i);
        proof {
            crate::labels::lemma_map_of_push(p, i as int);
            assert(c.union_prefer_right(map_of_prefix(p, i as int)).insert(k@, v@) =~= c.union_prefer_right(
                map_of_prefix(p, i + 1),
            ));
        }
        result.insert(k.clone(), v.clone());
        i = i + 1;
    }
    assert(p.subrange(0, n as int) =~= p);
    result
}

/// Merging keeps every current label that the incoming set does not name,
/// and sets every incoming label.
pub proof fn lemma_merge_union(current: Map<Seq<char>, Seq<char>>, incoming: Map<Seq<char>, Seq<char>>)
    ensures
        merged(current, incoming).dom() == current.dom().union(incoming.dom()),
        forall|k: Seq<char>| #[trigger] incoming.contains_key(k) ==> merged(current, incoming)[k] == incoming[k],
        forall|k: Seq<char>| #[trigger] current.contains_key(k) && !incoming.contains_key(k)
            ==> merged(current, incoming)[k] == current[k],
{
    assert(merged(current, incoming).dom() =~= current.dom().union(incoming.dom()));
}


/// The disk's labels and fingerprint, as a read of the disk returns them.
pub struct DiskLabels {
    pub labels: Labels,
    /// The token that the next write must carry: the cloud refuses a write
    /// made against labels that changed since the read.
    pub label_fingerprint: String,
}

/// The body of a `setLabels` call.
pub struct LabelUpdate {
    pub labels: Labels,
    pub label_fingerprint: String,
}

/// The next thing that tagging a disk does.
pub enum TagStep {
    /// Read the disk's current labels and fingerprint.
    ReadDisk(GcpDisk),
    /// Write these labels to the disk, with the fingerprint read.
    WriteLabels(GcpDisk, LabelUpdate),
    /// Tagging is over, with this result.
    Done(Result<(), Error>),
}

/// The first step of tagging: a resource id that is not a disk's path fails
/// at once, with no call to the cloud; otherwise the disk is read.
pub fn start_tagging(resource_id: &str) -> (r: TagStep)
    ensures
        match parse_spec(resource_id@) {
            Some((p, l, reg, n)) => r is ReadDisk && r->ReadDisk_0.project@ == p && r->ReadDisk_0.location@ == l
                && r->ReadDisk_0.regional == reg && r->ReadDisk_0.name@ == n,
            None => r is Done && r->Done_0 is Err && r->Done_0->Err_0 is CloudApi
                && r->Done_0->Err_0->CloudApi_0@ == "Invalid resource ID"@,
        },
{
    match GcpDisk::parse(resource_id) {
        Some(disk) => TagStep::ReadDisk(disk),
        None => TagStep::Done(Err(Error::CloudApi(String::from_str("Invalid resource ID")))),
    }
}

/// The step after the read: its error ends tagging unchanged; otherwise the
/// current labels merged with the sanitised incoming ones are written, with
/// the fingerprint that came with them.
pub fn after_read(disk: GcpDisk, incoming: &Labels, read: Result<DiskLabels, Error>) -> (r: TagStep)
    requires
        incoming.wf(),
        read matches Ok(d) ==> d.labels.wf(),
    ensures
        match read {
            Err(e) => r == TagStep::Done(Err(e)),
            Ok(d) => r is WriteLabels && r->WriteLabels_0 == disk && r->WriteLabels_1.labels.wf()
                && r->WriteLabels_1.labels@ == merged(d.labels@, sanitised_pairs(incoming.pairs()))
                && r->WriteLabels_1.label_fingerprint == d.label_fingerprint,
        },
{
    match read {
        Err(e) => TagStep::Done(Err(e)),
        Ok(d) => {
            let sanitised = sanitise_labels(incoming);
            let labels = merge_labels(d.labels, &sanitised);
            TagStep::WriteLabels(disk, LabelUpdate { labels, label_fingerprint: d.label_fingerprint })
        },
    }
}

/// The step after the write: tagging is over with its result. A write
/// refused for a stale fingerprint is reported like any other error; the
/// read-merge-write cycle is not tried again.
pub fn after_write(written: Result<(), Error>) -> (r: TagStep)
    ensures
        r == TagStep::Done(written),
{
    TagStep::Done(written)
}

} // verus!
