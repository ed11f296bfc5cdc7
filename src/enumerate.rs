use vstd::prelude::*;

use crate::error::StatsError;
use crate::shard::ShardDescriptor;

verus! {

/// A file found under the corpus root: its path, and the path's components
/// in order, the file name last.
#[derive(Debug, Clone, PartialEq, Eq)]
pub struct ShardFile {
    pub path: String,
    pub parts: Vec<String>,
}

/// `s` ends with `suffix`.
pub open spec fn has_suffix(s: Seq<char>, suffix: Seq<char>) -> bool {
    suffix.len() <= s.len() && s.subrange(s.len() - suffix.len(), s.len() as int) == suffix
}

/// Relies on `str::ends_with` with a `&str` pattern: whether `suffix` is a
/// suffix of `s`.
#[verifier::external_body]
fn ends_with(s: &str, suffix: &str) -> (r: bool)
    ensures
        r == has_suffix(s@, suffix@),
{
    s.ends_with(suffix)
}

/// Relies on `str::strip_suffix` with a `&str` pattern: `s` without
/// `suffix` where it ends with it.
#[verifier::external_body]
fn strip_suffix<'a>(s: &'a str, suffix: &str) -> (r: Option<&'a str>)
    ensures
        r is Some <==> has_suffix(s@, suffix@),
        r matches Some(t) ==> t@ == s@.subrange(0, s@.len() - suffix@.len()),
{
    s.strip_suffix(suffix)
}

/// The ending of a shard file's name.
pub open spec fn shard_extension() -> Seq<char> {
    seq!['.', 'z', 's', 't']
}

/// The ending of a language directory's name, which is not part of the label.
pub open spec fn lang_dir_suffix() -> Seq<char> {
    seq!['_', 'm', 'e', 't', 'a']
}

/// The language label of a directory name: the name without its suffix.
pub open spec fn lang_label(dir: Seq<char>) -> Seq<char> {
    if has_suffix(dir, lang_dir_suffix()) {
        dir.subrange(0, dir.len() - lang_dir_suffix().len())
    } else {
        dir
    }
}

/// Whether a file name is that of a shard.
pub fn is_shard_name(name: &str) -> (r: bool)
    ensures
        r == has_suffix(name@, shard_extension()),
{
    proof {
        reveal_strlit(".zst");
    }
    let ext = ".zst";
    assert(ext@ =~= shard_extension());
    ends_with(name, ext)
}

/// The language label of the directory named `dir`.
pub fn lang_of_dir(dir: &str) -> (r: String)
    ensures
        r@ == lang_label(dir@),
{
    proof {
        reveal_strlit("_meta");
    }
    let suffix = "_meta";
    assert(suffix@ =~= lang_dir_suffix());
    match strip_suffix(dir, suffix) {
        Some(t) => t.to_string(),
        None => dir.to_string(),
    }
}

/// The labels of a shard whose path has components `parts`: the snapshot
/// is the grandparent directory, the language the parent directory without
/// its suffix. None where the path has fewer than three components.
pub open spec fn labels_of(parts: Seq<Seq<char>>) -> Option<(Seq<char>, Seq<char>)> {
    if parts.len() < 3 {
        None
    } else {
        Some((lang_label(parts[parts.len() - 2]), parts[parts.len() - 3]))
    }
}

pub open spec fn parts_view(parts: Seq<String>) -> Seq<Seq<char>> {
    parts.map_values(|p: String| p@)
}

/// The descriptor of the shard `file`, with its labels taken from its path.
pub fn describe_shard(file: &ShardFile) -> (r: Result<ShardDescriptor, StatsError>)
    ensures
        r is Err <==> file.parts@.len() < 3,
        r matches Err(e) ==> (e matches StatsError::Enumeration { path } && path@ == file.path@),
        r matches Ok(d) ==> d.path@ == file.path@ && labels_of(parts_view(file.parts@)) == Some(
            (d.lang@, d.snapshot@),
        ),
{
    let n = file.parts.len();
    if n < 3 {
        return Err(StatsError::Enumeration { path: file.path.clone() });
    }
    let lang = lang_of_dir(file.parts[n - 2].as_str());
    let snapshot = file.parts[n - 3].clone();
    Ok(ShardDescriptor { path: file.path.clone(), lang, snapshot })
}

pub open spec fn file_view(f: ShardFile) -> (Seq<char>, Seq<Seq<char>>) {
    (f.path@, parts_view(f.parts@))
}

pub open spec fn files_view(files: Seq<ShardFile>) -> Seq<(Seq<char>, Seq<Seq<char>>)> {
    files.map_values(|f: ShardFile| file_view(f))
}

/// A descriptor as path, language and snapshot.
pub open spec fn descriptor_view(d: ShardDescriptor) -> (Seq<char>, Seq<char>, Seq<char>) {
    (d.path@, d.lang@, d.snapshot@)
}

pub open spec fn descriptors_view(ds: Seq<ShardDescriptor>) -> Seq<(Seq<char>, Seq<char>, Seq<char>)> {
    ds.map_values(|d: ShardDescriptor| descriptor_view(d))
}

/// A snapshot passes the allow-list: there is none, or it names the snapshot.
pub open spec fn allowed(allow: Option<Seq<Seq<char>>>, snapshot: Seq<char>) -> bool {
    match allow {
        None => true,
        Some(labels) => labels.contains(snapshot),
    }
}

/// The shards among `files`, in order: every file whose name ends with the
/// shard extension, with its labels, kept where its snapshot is allowed.
/// The path of the first shard file too shallow for its labels where there
/// is one.
pub open spec fn enumeration(
    files: Seq<(Seq<char>, Seq<Seq<char>>)>,
    allow: Option<Seq<Seq<char>>>,
) -> Result<Seq<(Seq<char>, Seq<char>, Seq<char>)>, Seq<char>>
    decreases files.len(),
{
    if files.len() == 0 {
        Ok(Seq::empty())
    } else {
        match enumeration(files.drop_last(), allow) {
            Err(p) => Err(p),
            Ok(ds) => {
                let (path, parts) = files.last();
                if parts.len() == 0 || !has_suffix(parts.last(), shard_extension()) {
                    Ok(ds)
                } else {
                    match labels_of(parts) {
                        None => Err(path),
                        Some((lang, snapshot)) => if allowed(allow, snapshot) {
                            Ok(ds.push((path, lang, snapshot)))
                        } else {
                            Ok(ds)
                        },
                    }
                }
            },
        }
    }
}

fn contains_label(labels: &Vec<String>, label: &String) -> (r: bool)
    ensures
        r == parts_view(labels@).contains(label@),
{
    let ghost view = parts_view(labels@);
    let mut i: usize = 0;
    while i < labels.len()
        invariant
            0 <= i <= labels@.len(),
            view == parts_view(labels@),
            forall|j: int| 0 <= j < i ==> view[j] != label@,
        decreases labels@.len() - i,
    {
        if labels[i] == *label {
            assert(view[i as int] == label@);
            return true;
        }
        i = i + 1;
    }
    false
}

fn is_allowed(allow: &Option<Vec<String>>, snapshot: &String) -> (r: bool)
    ensures
        r == allowed(
            match allow {
                None => None,
                Some(v) => Some(parts_view(v@)),
            },
            snapshot@,
        ),
{
    match allow {
        None => true,
        Some(labels) => contains_label(labels, snapshot),
    }
}

/// The shards to process among `files`, in order: each file whose name ends
/// with the shard extension, with the labels derived from its path, where
/// its snapshot is on the allow-list (every snapshot is, without a list).
/// Fails on the first shard file whose path is too shallow for its labels.
pub fn select_shards(files: &Vec<ShardFile>, allow: &Option<Vec<String>>) -> (r: Result<
    Vec<ShardDescriptor>,
    StatsError,
>)
    ensures
        ({
            let spec_allow = match allow {
                None => None,
                Some(v) => Some(parts_view(v@)),
            };
            match enumeration(files_view(files@), spec_allow) {
                Ok(ds) => r matches Ok(v) && descriptors_view(v@) == ds,
                Err(p) => r matches Err(e) && (e matches StatsError::Enumeration { path }
                    && path@ == p),
            }
        }),
{
    let ghost spec_allow = match allow {
        None => None,
        Some(v) => Some(parts_view(v@)),
    };
    let ghost all = files_view(files@);
    let mut out: Vec<ShardDescriptor> = Vec::new();
    let mut i: usize = 0;
    proof {
        assert(all.take(0) =~= Seq::<(Seq<char>, Seq<Seq<char>>)>::empty());
        assert(descriptors_view(out@) =~= Seq::<(Seq<char>, Seq<char>, Seq<char>)>::empty());
    }
    while i < files.len()
        invariant
            0 <= i <= files@.len(),
            all == files_view(files@),
            spec_allow == match allow {
                None => None,
                Some(v) => Some(parts_view(v@)),
            },
            enumeration(all.take(i as int), spec_allow) == Ok::<
                Seq<(Seq<char>, Seq<char>, Seq<char>)>,
                Seq<char>,
            >(descriptors_view(out@)),
        decreases files@.len() - i,
    {
        let ghost before = descriptors_view(out@);
        proof {
            assert(all.take(i + 1).drop_last() =~= all.take(i as int));
            assert(all.take(i + 1).last() == file_view(files@[i as int]));
        }
        let file = &files[i];
        let n = file.parts.len();
        if n > 0 && is_shard_name(file.parts[n - 1].as_str()) {
            match describe_shard(file) {
                Err(e) => {
                    proof {
                        lemma_enumeration_err_stays(all, spec_allow, i + 1);
                    }
                    return Err(e);
                },
                Ok(d) => {
                    if is_allowed(allow, &d.snapshot) {
                        out.push(d);
                        proof {
                            assert(descriptors_view(out@) =~= before.push(descriptor_view(d)));
                        }
                    }
                },
            }
        }
        i = i + 1;
    }
    proof {
        assert(all.take(i as int) =~= all);
    }
    Ok(out)
}

/// Once a prefix of the files fails, so does the whole list, with the same path.
proof fn lemma_enumeration_err_stays(
    files: Seq<(Seq<char>, Seq<Seq<char>>)>,
    allow: Option<Seq<Seq<char>>>,
    n: int,
)
    requires
        0 <= n <= files.len(),
        enumeration(files.take(n), allow) is Err,
    ensures
        enumeration(files, allow) == enumeration(files.take(n), allow),
    decreases files.len(),
{
    if n < files.len() {
        assert(files.drop_last().take(n) =~= files.take(n));
        lemma_enumeration_err_stays(files.drop_last(), allow, n);
    } else {
        assert(files.take(n) =~= files);
    }
}

} // verus!
