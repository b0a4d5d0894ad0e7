//! Where a payload goes: a relative directory and a file name, derived from
//! its URL and the output layout.
use vstd::prelude::*;
use vstd::string::*;
use crate::location::{strings_view, UrlParts};
use crate::registry::{has_known_extension, MimeTypes};
use crate::text::{is_safe_segment, is_skippable_segment, safe_segment, skippable_segment};

verus! {

/// Why extraction stops.
#[derive(Clone, Copy, Debug, PartialEq, Eq, Structural)]
pub enum ExtractError {
    /// The layout asks for URL path directories without the domain directory.
    ConfigurationError,
    /// The URL has no host or no path, or yields no safe destination.
    MalformedUrl,
    /// The payload is not standard base64.
    InvalidEncoding,
}

/// How much of a URL's structure the output tree reproduces.
///
/// `path_depth` is carried for callers that display it; the layout always
/// reproduces the whole URL directory path, whatever its value.
#[derive(Clone, Copy, Debug)]
pub struct OutputLayoutPolicy {
    pub use_domain_subfolder: bool,
    pub use_path_subfolder: bool,
    pub path_depth: i32,
}

impl OutputLayoutPolicy {
    /// A path layout is accepted only beneath a domain layout.
    pub open spec fn is_valid(&self) -> bool {
        self.use_path_subfolder ==> self.use_domain_subfolder
    }

    /// Checks the combination of flags before any extraction work.
    pub fn validate(&self) -> (r: Result<(), ExtractError>)
        ensures
            r is Ok <==> self.is_valid(),
            r matches Err(e) ==> e == ExtractError::ConfigurationError,
    {
        if self.use_path_subfolder && !self.use_domain_subfolder {
            Err(ExtractError::ConfigurationError)
        } else {
            Ok(())
        }
    }
}

/// A destination relative to the output root: directories, then a file name.
pub struct ResolvedDestination {
    pub relative_dir: Vec<String>,
    pub filename: String,
}

impl ResolvedDestination {
    pub open spec fn dir_view(&self) -> Seq<Seq<char>> {
        strings_view(self.relative_dir@)
    }
}

/// The segments of `segs` that name a directory, in order: empty and `.`
/// segments are left out, as joining them to a path changes nothing.
pub open spec fn kept_dirs(segs: Seq<Seq<char>>) -> Seq<Seq<char>>
    decreases segs.len(),
{
    if segs.len() == 0 {
        Seq::empty()
    } else {
        let rest = kept_dirs(segs.drop_last());
        if skippable_segment(segs.last()) {
            rest
        } else {
            rest.push(segs.last())
        }
    }
}

/// The file name for a final URL segment: kept as it is where it already
/// ends with an extension of the table, else given `ext`.
pub open spec fn normalized_filename(
    types: Map<Seq<char>, Seq<char>>,
    name: Seq<char>,
    ext: Seq<char>,
) -> Seq<char> {
    if has_known_extension(types, name) {
        name
    } else {
        name + ext
    }
}

/// The relative directory for a host and URL directory segments.
pub open spec fn layout_dir(
    policy: OutputLayoutPolicy,
    host: Seq<char>,
    dirs: Seq<Seq<char>>,
) -> Seq<Seq<char>> {
    let top = if policy.use_domain_subfolder {
        seq![host]
    } else {
        Seq::empty()
    };
    if policy.use_path_subfolder {
        top + dirs
    } else {
        top
    }
}

/// Whether every segment but the last would be skipped or is safe.
pub open spec fn dir_segments_ok(segs: Seq<Seq<char>>) -> bool {
    forall|i: int|
        0 <= i < segs.len() - 1 ==> skippable_segment(#[trigger] segs[i]) || safe_segment(segs[i])
}

/// The destination of a payload with extension `ext` from `url`, or `None`
/// where the URL lacks a host or a path, or a part that the layout uses
/// would not name a child directory or file.
pub open spec fn destination_of(
    url: UrlParts,
    policy: OutputLayoutPolicy,
    types: Map<Seq<char>, Seq<char>>,
    ext: Seq<char>,
) -> Option<(Seq<Seq<char>>, Seq<char>)> {
    let host = url.host_view().unwrap();
    let segs = url.segments_view().unwrap();
    let name = normalized_filename(types, segs.last(), ext);
    if url.host_view() is Some && url.segments_view() is Some && segs.len() > 0 && (
    policy.use_domain_subfolder ==> safe_segment(host)) && (policy.use_path_subfolder
        ==> dir_segments_ok(segs)) && safe_segment(name) {
        Some((layout_dir(policy, host, kept_dirs(segs.drop_last())), name))
    } else {
        None
    }
}

/// Every kept segment is safe where each segment is skipped or safe.
proof fn lemma_kept_dirs_safe(segs: Seq<Seq<char>>)
    requires
        forall|i: int|
            0 <= i < segs.len() ==> skippable_segment(#[trigger] segs[i]) || safe_segment(
                segs[i],
            ),
    ensures
        forall|i: int|
            0 <= i < kept_dirs(segs).len() ==> safe_segment(#[trigger] kept_dirs(segs)[i]),
    decreases segs.len(),
{
    if segs.len() > 0 {
        let init = segs.drop_last();
        assert forall|i: int| 0 <= i < init.len() implies skippable_segment(#[trigger] init[i])
            || safe_segment(init[i]) by {
            assert(init[i] == segs[i]);
        }
        lemma_kept_dirs_safe(init);
        assert(segs.last() == segs[segs.len() - 1]);
        let rest = kept_dirs(init);
        assert forall|i: int| 0 <= i < kept_dirs(segs).len() implies safe_segment(
            #[trigger] kept_dirs(segs)[i],
        ) by {
            if i < rest.len() {
                assert(kept_dirs(segs)[i] == rest[i]);
            }
        }
    }
}

/// Each part of a destination names a child: no empty part, no `.` or `..`,
/// no separator.
pub proof fn lemma_destination_safe(
    url: UrlParts,
    policy: OutputLayoutPolicy,
    types: Map<Seq<char>, Seq<char>>,
    ext: Seq<char>,
)
    requires
        destination_of(url, policy, types, ext) is Some,
    ensures
        ({
            let (dir, name) = destination_of(url, policy, types, ext).unwrap();
            &&& safe_segment(name)
            &&& forall|i: int| 0 <= i < dir.len() ==> safe_segment(#[trigger] dir[i])
        }),
{
    let host = url.host_view().unwrap();
    let segs = url.segments_view().unwrap();
    let init = segs.drop_last();
    if policy.use_path_subfolder {
        assert forall|i: int| 0 <= i < init.len() implies skippable_segment(#[trigger] init[i])
            || safe_segment(init[i]) by {
            assert(init[i] == segs[i]);
        }
        lemma_kept_dirs_safe(init);
    }
    let dir = layout_dir(policy, host, kept_dirs(init));
    assert forall|i: int| 0 <= i < dir.len() implies safe_segment(#[trigger] dir[i]) by {
        if policy.use_domain_subfolder && policy.use_path_subfolder {
            if i > 0 {
                assert(dir[i] == kept_dirs(init)[i - 1]);
            }
        } else if policy.use_path_subfolder {
            assert(dir[i] == kept_dirs(init)[i]);
        }
    }
}

/// Resolves where the payload of `url`, with extension `extension`, goes.
pub fn resolve(
    url: &UrlParts,
    policy: &OutputLayoutPolicy,
    types: &MimeTypes,
    extension: &str,
) -> (r: Result<ResolvedDestination, ExtractError>)
    requires
        types.wf(),
    ensures
        match r {
            Ok(d) => destination_of(*url, *policy, types@, extension@) == Some(
                (d.dir_view(), d.filename@),
            ),
            Err(e) => e == ExtractError::MalformedUrl && destination_of(
                *url,
                *policy,
                types@,
                extension@,
            ) is None,
        },
        r matches Ok(d) ==> safe_segment(d.filename@) && forall|i: int|
            0 <= i < d.dir_view().len() ==> safe_segment(#[trigger] d.dir_view()[i]),
{
    let host = match &url.host {
        Some(h) => h,
        None => return Err(ExtractError::MalformedUrl),
    };
    let segs = match &url.segments {
        Some(v) => v,
        None => return Err(ExtractError::MalformedUrl),
    };
    if segs.len() == 0 {
        return Err(ExtractError::MalformedUrl);
    }
    let ghost sv = strings_view(segs@);
    assert(url.segments_view() == Some(sv));
    let last = segs.len() - 1;
    assert(sv.last() == segs@[last as int]@);
    let source_name = segs[last].clone();
    let filename = if types.has_known_extension(source_name.as_str()) {
        source_name
    } else {
        source_name.concat(extension)
    };
    if !is_safe_segment(filename.as_str()) {
        return Err(ExtractError::MalformedUrl);
    }
    let mut dirs: Vec<String> = Vec::new();
    if policy.use_domain_subfolder {
        if !is_safe_segment(host.as_str()) {
            return Err(ExtractError::MalformedUrl);
        }
        dirs.push(host.clone());
        assert(strings_view(dirs@) =~= seq![host@]);
    }
    let ghost top = strings_view(dirs@);
    if policy.use_path_subfolder {
        let mut i: usize = 0;
        while i < last
            invariant
                sv == strings_view(segs@),
                url.segments_view() == Some(sv),
                policy.use_path_subfolder,
                last + 1 == segs@.len(),
                i <= last,
                strings_view(dirs@) == top + kept_dirs(sv.subrange(0, i as int)),
                forall|j: int|
                    0 <= j < i ==> skippable_segment(#[trigger] sv[j]) || safe_segment(sv[j]),
            decreases last - i,
        {
            let ghost before = dirs@;
            assert(sv.subrange(0, i + 1).drop_last() =~= sv.subrange(0, i as int));
            assert(sv[i as int] == segs@[i as int]@);
            let s = segs[i].as_str();
            if !is_skippable_segment(s) {
                if !is_safe_segment(s) {
                    assert(!(skippable_segment(sv[i as int]) || safe_segment(sv[i as int])));
                    assert(!dir_segments_ok(sv));
                    return Err(ExtractError::MalformedUrl);
                }
                dirs.push(segs[i].clone());
                assert(strings_view(dirs@) =~= strings_view(before).push(sv[i as int]));
            }
            i = i + 1;
        }
        assert(sv.subrange(0, last as int) =~= sv.drop_last());
    }
    let d = ResolvedDestination { relative_dir: dirs, filename };
    proof {
        lemma_destination_safe(*url, *policy, types@, extension@);
        assert(destination_of(*url, *policy, types@, extension@).unwrap().0 == d.dir_view());
        if !policy.use_path_subfolder {
            assert(d.dir_view() =~= top);
        }
    }
    Ok(d)
}

} // verus!
