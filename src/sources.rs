//! Classifying a user-supplied source value: an object-storage locator, an
//! HTTP(S) URL, or a local file reference.
use vstd::prelude::*;
use crate::error::EngineError;
use crate::text::{chars_of, has_prefix, starts_with, string_of, tail_from};

verus! {

/// `s` without its first `n` characters.
pub open spec fn skip(s: Seq<char>, n: nat) -> Seq<char> {
    s.subrange(n as int, s.len() as int)
}

/// The index of the first `c` in `s`, if any.
pub open spec fn first_index(s: Seq<char>, c: char) -> Option<nat>
    decreases s.len(),
{
    if s.len() == 0 {
        None
    } else if s[0] == c {
        Some(0)
    } else {
        match first_index(s.subrange(1, s.len() as int), c) {
            Some(i) => Some(i + 1),
            None => None,
        }
    }
}

/// Bucket and key of an `s3://bucket/key` locator: the bucket runs to the
/// first `/`, the key is the rest; both must be non-empty.
pub open spec fn s3_parts(url: Seq<char>) -> Option<(Seq<char>, Seq<char>)> {
    if !has_prefix(url, "s3://"@) {
        None
    } else {
        let rest = skip(url, 5);
        let (bucket, key) = match first_index(rest, '/') {
            Some(i) => (rest.subrange(0, i as int), skip(rest, i + 1)),
            None => (rest, Seq::empty()),
        };
        if bucket.len() == 0 || key.len() == 0 {
            None
        } else {
            Some((bucket, key))
        }
    }
}

fn find_char(s: &Vec<char>, c: char) -> (r: Option<usize>)
    ensures
        match first_index(s@, c) {
            Some(i) => r == Some(i as usize) && i < s@.len(),
            None => r is None,
        },
{
    let mut i: usize = 0;
    assert(s@.subrange(0, s@.len() as int) =~= s@);
    while i < s.len()
        invariant
            i <= s.len(),
            forall|j: int| 0 <= j < i ==> s@[j] != c,
            first_index(s@, c) == match first_index(s@.subrange(i as int, s@.len() as int), c) {
                Some(k) => Some((k + i) as nat),
                None => None::<nat>,
            },
        decreases s.len() - i,
    {
        let ghost t = s@.subrange(i as int, s@.len() as int);
        assert(t.subrange(1, t.len() as int) =~= s@.subrange(i + 1, s@.len() as int));
        if s[i] == c {
            return Some(i);
        }
        i = i + 1;
    }
    None
}

/// Splits an `s3://bucket/key` locator (see `s3_parts`).
pub fn parse_s3_url(url: &str) -> (r: Result<(String, String), EngineError>)
    ensures
        match s3_parts(url@) {
            Some((b, k)) => r matches Ok((x, y)) && x@ == b && y@ == k,
            None => r matches Err(EngineError::InvalidStorageLocator(u)) && u@ == url@,
        },
{
    if !starts_with(url, "s3://") {
        return Err(EngineError::InvalidStorageLocator(url.to_owned()));
    }
    proof {
        reveal_strlit("s3://");
    }
    let all = chars_of(url);
    let rest = tail_from(&all, 5);
    let (bucket, key) = match find_char(&rest, '/') {
        Some(i) => {
            let mut b: Vec<char> = Vec::new();
            let mut j: usize = 0;
            while j < i
                invariant
                    j <= i < rest.len(),
                    b@ == rest@.subrange(0, j as int),
                decreases i - j,
            {
                b.push(rest[j]);
                j = j + 1;
                assert(b@ =~= rest@.subrange(0, j as int));
            }
            (b, tail_from(&rest, i + 1))
        },
        None => {
            let e: Vec<char> = Vec::new();
            assert(e@ =~= Seq::<char>::empty());
            (rest, e)
        },
    };
    if bucket.len() == 0 || key.len() == 0 {
        return Err(EngineError::InvalidStorageLocator(url.to_owned()));
    }
    Ok((string_of(&bucket), string_of(&key)))
}

/// Whether `v` is written as a source: `@path`, `file://`, `http://`,
/// `https://` or `s3://`.
pub open spec fn source_prefixed(v: Seq<char>) -> bool {
    has_prefix(v, "@"@) || has_prefix(v, "file://"@) || has_prefix(v, "http://"@)
        || has_prefix(v, "https://"@) || has_prefix(v, "s3://"@)
}

/// Whether a value names a source to read rather than a literal: it has a
/// source prefix, or `exists_on_disk` (the value is a path that exists).
pub fn looks_like_source(value: &str, exists_on_disk: bool) -> (r: bool)
    ensures
        r == (source_prefixed(value@) || exists_on_disk),
{
    starts_with(value, "@") || starts_with(value, "file://") || starts_with(value, "http://")
        || starts_with(value, "https://") || starts_with(value, "s3://") || exists_on_disk
}

/// The local path a value refers to: after `@`, after `file://`, or the
/// value itself.
pub open spec fn local_path_of(v: Seq<char>) -> Seq<char> {
    if has_prefix(v, "@"@) {
        skip(v, 1)
    } else if has_prefix(v, "file://"@) {
        skip(v, 7)
    } else {
        v
    }
}

/// The local path a value refers to (see `local_path_of`).
pub fn local_path(value: &str) -> (r: String)
    ensures
        r@ == local_path_of(value@),
{
    let all = chars_of(value);
    if starts_with(value, "@") {
        proof {
            reveal_strlit("@");
        }
        return string_of(&tail_from(&all, 1));
    }
    if starts_with(value, "file://") {
        proof {
            reveal_strlit("file://");
        }
        return string_of(&tail_from(&all, 7));
    }
    value.to_owned()
}

/// Where a source's bytes come from.
#[derive(Clone, Debug, PartialEq)]
pub enum SourceKind {
    /// An object in storage, by bucket and key.
    Storage { bucket: String, key: String },
    /// An HTTP(S) URL.
    Http(String),
    /// A local file, by path.
    Local(String),
}

/// Classifies a source value: a storage locator first, then an HTTP(S) URL,
/// then a local file, which `local_exists` says exists at `local_path(value)`.
pub fn classify_source(value: &str, local_exists: bool) -> (r: Result<SourceKind, EngineError>)
    ensures
        has_prefix(value@, "s3://"@) ==> match s3_parts(value@) {
            Some((b, k)) => r matches Ok(SourceKind::Storage { bucket, key }) && bucket@ == b && key@ == k,
            None => r matches Err(EngineError::InvalidStorageLocator(_)),
        },
        !has_prefix(value@, "s3://"@) && (has_prefix(value@, "http://"@) || has_prefix(value@, "https://"@))
            ==> (r matches Ok(SourceKind::Http(u)) && u@ == value@),
        !has_prefix(value@, "s3://"@) && !has_prefix(value@, "http://"@) && !has_prefix(value@, "https://"@)
            ==> if local_exists {
                r matches Ok(SourceKind::Local(p)) && p@ == local_path_of(value@)
            } else {
                r matches Err(EngineError::SourceNotFound(v)) && v@ == value@
            },
{
    if starts_with(value, "s3://") {
        return match parse_s3_url(value) {
            Ok((bucket, key)) => Ok(SourceKind::Storage { bucket, key }),
            Err(e) => Err(e),
        };
    }
    if starts_with(value, "http://") || starts_with(value, "https://") {
        return Ok(SourceKind::Http(value.to_owned()));
    }
    if local_exists {
        return Ok(SourceKind::Local(local_path(value)));
    }
    Err(EngineError::SourceNotFound(value.to_owned()))
}

/// The characters after the last `/` of `s` (all of `s` when it has none).
pub open spec fn last_segment(s: Seq<char>) -> Seq<char>
    decreases s.len(),
{
    if s.len() == 0 {
        s
    } else if s.last() == '/' {
        Seq::empty()
    } else {
        last_segment(s.drop_last()).push(s.last())
    }
}

/// The file name for a download from `url`: its last `/`-separated segment,
/// or `download` when that is empty.
pub fn http_file_name(url: &str) -> (r: String)
    ensures
        last_segment(url@).len() > 0 ==> r@ == last_segment(url@),
        last_segment(url@).len() == 0 ==> r@ == "download"@,
{
    let all = chars_of(url);
    let mut start: usize = all.len();
    assert(all@.subrange(0, all@.len() as int) =~= all@);
    assert(all@.subrange(all@.len() as int, all@.len() as int) =~= Seq::<char>::empty());
    assert(last_segment(all@) + Seq::<char>::empty() =~= last_segment(all@));
    while start > 0 && all[start - 1] != '/'
        invariant
            start <= all.len(),
            last_segment(all@) == last_segment(all@.subrange(0, start as int)) + all@.subrange(start as int, all@.len() as int),
        decreases start,
    {
        let ghost h = all@.subrange(0, start as int);
        assert(h.drop_last() =~= all@.subrange(0, start - 1));
        assert(all@.subrange(start - 1, all@.len() as int) =~= seq![h.last()] + all@.subrange(start as int, all@.len() as int));
        assert(last_segment(h) == last_segment(h.drop_last()).push(h.last()));
        assert(last_segment(h.drop_last()).push(h.last()) + all@.subrange(start as int, all@.len() as int)
            =~= last_segment(h.drop_last()) + (seq![h.last()] + all@.subrange(start as int, all@.len() as int)));
        start = start - 1;
    }
    proof {
        let h = all@.subrange(0, start as int);
        assert(last_segment(h) =~= Seq::<char>::empty());
        assert(Seq::<char>::empty() + all@.subrange(start as int, all@.len() as int) =~= all@.subrange(start as int, all@.len() as int));
    }
    let seg = tail_from(&all, start);
    if seg.len() == 0 {
        return "download".to_owned();
    }
    string_of(&seg)
}

} // verus!
