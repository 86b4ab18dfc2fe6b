//! Decoding of an encoded project directory name into a filesystem path.
//!
//! A project directory is named after the project's path with every
//! separator replaced by a hyphen, so a hyphen in the name stands either for
//! a separator or for a hyphen of the path. The decoder looks for a reading
//! whose every directory exists. What exists is a parameter: a set of paths
//! in the contracts, a list of paths or the answers to single questions in
//! the code.

use vstd::prelude::*;
use crate::text::{
    join_with, lemma_split_on, lemma_split_pieces, replace_char, split_on, str_eq,
    str_replace_char, str_split_on,
};

verus! {

// ---------------------------------------------------------------------------
// The model
// ---------------------------------------------------------------------------

/// `base` extended by the component `name`. A separator is put between the
/// two unless `base` is empty or ends in one; a `name` that starts at the
/// root stands alone.
pub open spec fn join_path(base: Seq<char>, name: Seq<char>) -> Seq<char> {
    if name.len() > 0 && name[0] == '/' {
        name
    } else if base.len() == 0 || base.last() == '/' {
        base + name
    } else {
        base.push('/') + name
    }
}

/// `segments` with its first two joined by a hyphen into one.
pub open spec fn merge_first_two(segments: Seq<Seq<char>>) -> Seq<Seq<char>>
    recommends
        segments.len() >= 2,
{
    seq![segments[0].push('-') + segments[1]] + segments.skip(2)
}

/// The first path below `base` that reads all of `segments` and whose every
/// directory is in `fs`.
///
/// The first segment is tried as a component of its own; where that leads
/// nowhere, the first two segments are read as one component with a hyphen
/// in it. A single segment left is the last component; with no segment left
/// the path is `base`, if it exists.
pub open spec fn find_path(fs: Set<Seq<char>>, base: Seq<char>, segments: Seq<Seq<char>>) -> Option<
    Seq<char>,
>
    decreases segments.len(),
{
    if segments.len() == 0 {
        if fs.contains(base) {
            Some(base)
        } else {
            None
        }
    } else {
        let next = join_path(base, segments[0]);
        let deeper = if fs.contains(next) {
            find_path(fs, next, segments.skip(1))
        } else {
            None
        };
        if deeper is Some {
            deeper
        } else if segments.len() >= 2 {
            find_path(fs, base, merge_first_two(segments))
        } else {
            None
        }
    }
}

/// A name is encoded when it starts with the hyphen that stands for the root.
pub open spec fn is_encoded(name: Seq<char>) -> bool {
    name.len() > 0 && name[0] == '-'
}

/// The reading of an encoded name in which every hyphen is a separator.
pub open spec fn naive_path(name: Seq<char>) -> Seq<char> {
    replace_char(name, '-', '/')
}

/// The hyphen-delimited segments of an encoded name, after its leading hyphen.
pub open spec fn segments_of(name: Seq<char>) -> Seq<Seq<char>> {
    split_on(name.skip(1), '-')
}

/// The path that an encoded project name decodes to over the filesystem `fs`.
///
/// A name that is not encoded decodes to itself. Otherwise the naive reading
/// stands if it exists; else the first reading found from the root; else,
/// when no reading exists, the naive reading again.
pub open spec fn decoded_path(fs: Set<Seq<char>>, name: Seq<char>) -> Seq<char> {
    if !is_encoded(name) {
        name
    } else if fs.contains(naive_path(name)) {
        naive_path(name)
    } else {
        match find_path(fs, seq!['/'], segments_of(name)) {
            Some(path) => path,
            None => naive_path(name),
        }
    }
}

/// The set of paths that a list of paths names.
pub open spec fn path_set(existing: Seq<Seq<char>>) -> Set<Seq<char>> {
    existing.to_set()
}

// ---------------------------------------------------------------------------
// Laws
// ---------------------------------------------------------------------------

/// A path that the search finds exists.
pub proof fn lemma_found_path_exists(fs: Set<Seq<char>>, base: Seq<char>, segments: Seq<Seq<char>>)
    ensures
        find_path(fs, base, segments) matches Some(path) ==> fs.contains(path),
    decreases segments.len(),
{
    if segments.len() > 0 {
        let next = join_path(base, segments[0]);
        if fs.contains(next) {
            lemma_found_path_exists(fs, next, segments.skip(1));
        }
        if segments.len() >= 2 {
            lemma_found_path_exists(fs, base, merge_first_two(segments));
        }
    }
}

/// A name that is not encoded is returned unchanged, whatever exists; an
/// encoded name decodes to a path that exists or to its naive reading.
pub proof fn lemma_decoded_path(fs: Set<Seq<char>>, name: Seq<char>)
    ensures
        !is_encoded(name) ==> decoded_path(fs, name) == name,
        is_encoded(name) ==> fs.contains(decoded_path(fs, name)) || decoded_path(fs, name)
            == naive_path(name),
{
    if is_encoded(name) {
        lemma_found_path_exists(fs, seq!['/'], segments_of(name));
    }
}

/// The first `k` segments read as one component: joined by hyphens.
pub open spec fn component(segments: Seq<Seq<char>>, k: int) -> Seq<char> {
    join_with(segments.take(k), '-')
}

/// `path` is a reading of `segments` below `base`: the segments, cut into
/// components of one or more segments each, lead from `base` to `path`
/// through directories that all exist.
pub open spec fn is_reading(
    fs: Set<Seq<char>>,
    base: Seq<char>,
    segments: Seq<Seq<char>>,
    path: Seq<char>,
) -> bool
    decreases segments.len(),
{
    if segments.len() == 0 {
        path == base && fs.contains(base)
    } else {
        exists|k: int|
            1 <= k <= segments.len() && fs.contains(join_path(base, #[trigger] component(segments, k)))
                && is_reading(fs, join_path(base, component(segments, k)), segments.skip(k), path)
    }
}

proof fn lemma_component_merged(segments: Seq<Seq<char>>, k: int)
    requires
        segments.len() >= 2,
        1 <= k <= segments.len() - 1,
    ensures
        component(merge_first_two(segments), k) == component(segments, k + 1),
        merge_first_two(segments).skip(k) == segments.skip(k + 1),
{
    let merged = merge_first_two(segments);
    assert(merged.take(k) =~= merge_first_two(segments.take(k + 1)));
    lemma_join_merged(segments.take(k + 1));
    assert(merged.skip(k) =~= segments.skip(k + 1));
}

/// The path that the search finds is a reading of the segments: every
/// directory on the way to it exists.
pub proof fn lemma_found_path_is_reading(
    fs: Set<Seq<char>>,
    base: Seq<char>,
    segments: Seq<Seq<char>>,
)
    ensures
        find_path(fs, base, segments) matches Some(path) ==> is_reading(fs, base, segments, path),
    decreases segments.len(),
{
    if segments.len() > 0 && find_path(fs, base, segments) is Some {
        let path = find_path(fs, base, segments)->0;
        let next = join_path(base, segments[0]);
        if fs.contains(next) && find_path(fs, next, segments.skip(1)) is Some {
            lemma_found_path_is_reading(fs, next, segments.skip(1));
            assert(segments.take(1).len() == 1 && segments.take(1)[0] == segments[0]);
            assert(component(segments, 1) == segments[0]);
        } else {
            assert(segments.len() >= 2);
            let merged = merge_first_two(segments);
            lemma_found_path_is_reading(fs, base, merged);
            assert(is_reading(fs, base, merged, path));
            let k = choose|k: int|
                1 <= k <= merged.len() && fs.contains(
                    join_path(base, #[trigger] component(merged, k)),
                ) && is_reading(fs, join_path(base, component(merged, k)), merged.skip(k), path);
            lemma_component_merged(segments, k);
            assert(fs.contains(join_path(base, component(segments, k + 1))));
        }
    }
}

/// Where the segments have a reading, the search finds a path: it gives up
/// only when no reading exists.
pub proof fn lemma_reading_is_found(
    fs: Set<Seq<char>>,
    base: Seq<char>,
    segments: Seq<Seq<char>>,
    path: Seq<char>,
)
    requires
        is_reading(fs, base, segments, path),
    ensures
        find_path(fs, base, segments) is Some,
    decreases segments.len(),
{
    if segments.len() > 0 {
        let k = choose|k: int|
            1 <= k <= segments.len() && fs.contains(
                join_path(base, #[trigger] component(segments, k)),
            ) && is_reading(fs, join_path(base, component(segments, k)), segments.skip(k), path);
        let next = join_path(base, segments[0]);
        if k == 1 {
            assert(segments.take(1).len() == 1 && segments.take(1)[0] == segments[0]);
            assert(component(segments, 1) == segments[0]);
            lemma_reading_is_found(fs, next, segments.skip(1), path);
        } else if !(fs.contains(next) && find_path(fs, next, segments.skip(1)) is Some) {
            let merged = merge_first_two(segments);
            lemma_component_merged(segments, k - 1);
            assert(fs.contains(join_path(base, component(merged, k - 1))));
            assert(is_reading(fs, base, merged, path));
            lemma_reading_is_found(fs, base, merged, path);
        }
    }
}

/// An encoded name decodes to a path that does not exist only when neither
/// its naive reading nor any other reading from the root exists.
pub proof fn lemma_fallback_means_no_reading(fs: Set<Seq<char>>, name: Seq<char>)
    requires
        is_encoded(name),
        !fs.contains(decoded_path(fs, name)),
    ensures
        decoded_path(fs, name) == naive_path(name),
        forall|path: Seq<char>| !is_reading(fs, seq!['/'], segments_of(name), path),
{
    lemma_found_path_exists(fs, seq!['/'], segments_of(name));
    assert forall|path: Seq<char>| !is_reading(fs, seq!['/'], segments_of(name), path) by {
        if is_reading(fs, seq!['/'], segments_of(name), path) {
            lemma_reading_is_found(fs, seq!['/'], segments_of(name), path);
        }
    }
}

/// The encoding of a path: every separator replaced by a hyphen.
pub open spec fn encoded_name(path: Seq<char>) -> Seq<char> {
    replace_char(path, '/', '-')
}

/// A segment is plain when it is not empty and holds no separator.
pub open spec fn is_plain(segment: Seq<char>) -> bool {
    segment.len() > 0 && !segment.contains('/')
}

pub open spec fn all_plain(segments: Seq<Seq<char>>) -> bool {
    forall|i: int| 0 <= i < segments.len() ==> is_plain(#[trigger] segments[i])
}

proof fn lemma_encoded_concat(a: Seq<char>, b: Seq<char>)
    ensures
        encoded_name(a + b) == encoded_name(a) + encoded_name(b),
{
    assert(encoded_name(a + b) =~= encoded_name(a) + encoded_name(b));
}

proof fn lemma_encoded_plain(segment: Seq<char>)
    requires
        !segment.contains('/'),
    ensures
        encoded_name(segment) == segment,
{
    assert forall|i: int| 0 <= i < segment.len() implies segment[i] != '/' by {
        if segment[i] == '/' {
            assert(segment.contains('/'));
        }
    }
    assert(encoded_name(segment) =~= segment);
}

proof fn lemma_join_front(parts: Seq<Seq<char>>, sep: char)
    requires
        parts.len() >= 2,
    ensures
        join_with(parts, sep) == parts[0].push(sep) + join_with(parts.skip(1), sep),
    decreases parts.len(),
{
    let rest = parts.skip(1);
    if parts.len() == 2 {
        assert(parts.drop_last().len() == 1 && parts.drop_last()[0] == parts[0]);
        assert(join_with(parts.drop_last(), sep) == parts[0]);
        assert(rest.len() == 1 && rest[0] == parts[1]);
        assert(join_with(rest, sep) == parts[1]);
        assert(join_with(parts, sep) =~= parts[0].push(sep) + join_with(rest, sep));
    } else {
        lemma_join_front(parts.drop_last(), sep);
        assert(parts.drop_last().skip(1) =~= rest.drop_last());
        assert(join_with(parts, sep) =~= parts[0].push(sep) + join_with(rest, sep));
    }
}

proof fn lemma_join_merged(segments: Seq<Seq<char>>)
    requires
        segments.len() >= 2,
    ensures
        join_with(merge_first_two(segments), '-') == join_with(segments, '-'),
{
    let merged = merge_first_two(segments);
    lemma_join_front(segments, '-');
    if segments.len() == 2 {
        assert(segments.skip(1) =~= seq![segments[1]]);
        assert(merged =~= seq![segments[0].push('-') + segments[1]]);
    } else {
        lemma_join_front(segments.skip(1), '-');
        lemma_join_front(merged, '-');
        assert(merged.skip(1) =~= segments.skip(2));
        assert(segments.skip(1).skip(1) =~= segments.skip(2));
        assert(join_with(merged, '-') =~= join_with(segments, '-'));
    }
}

/// What the segments add to the encoding of the path `base`.
pub open spec fn encoded_rest(base: Seq<char>, segments: Seq<Seq<char>>) -> Seq<char> {
    if segments.len() == 0 {
        Seq::empty()
    } else if base.last() == '/' {
        join_with(segments, '-')
    } else {
        seq!['-'] + join_with(segments, '-')
    }
}

/// A path that the search finds encodes to the encoding of the base
/// followed by the segments it was to read, hyphens between them.
proof fn lemma_found_path_encodes(fs: Set<Seq<char>>, base: Seq<char>, segments: Seq<Seq<char>>)
    requires
        base.len() > 0,
        all_plain(segments),
    ensures
        find_path(fs, base, segments) matches Some(path) ==> encoded_name(path) == encoded_name(
            base,
        ) + encoded_rest(base, segments),
    decreases segments.len(),
{
    if segments.len() == 0 {
        assert(encoded_name(base) + Seq::<char>::empty() =~= encoded_name(base));
    } else {
        let first = segments[0];
        assert(is_plain(first));
        assert(first[0] != '/') by {
            if first[0] == '/' {
                assert(first.contains('/'));
            }
        }
        let next = join_path(base, first);
        let rest = segments.skip(1);
        assert(all_plain(rest)) by {
            assert forall|i: int| 0 <= i < rest.len() implies is_plain(#[trigger] rest[i]) by {
                assert(rest[i] == segments[i + 1]);
            }
        }
        assert(next.last() == first.last());
        assert(next.last() != '/') by {
            if first.last() == '/' {
                assert(first[first.len() - 1] == '/');
                assert(first.contains('/'));
            }
        }
        lemma_encoded_plain(first);
        if base.last() == '/' {
            lemma_encoded_concat(base, first);
        } else {
            lemma_encoded_concat(base.push('/'), first);
            assert(encoded_name(base.push('/')) =~= encoded_name(base).push('-'));
        }
        if segments.len() >= 2 {
            lemma_join_front(segments, '-');
        }
        if fs.contains(next) && find_path(fs, next, rest) is Some {
            lemma_found_path_encodes(fs, next, rest);
            let path = find_path(fs, next, rest)->0;
            assert(encoded_name(path) =~= encoded_name(base) + encoded_rest(base, segments));
        } else if segments.len() >= 2 {
            let merged = merge_first_two(segments);
            assert(all_plain(merged)) by {
                assert(is_plain(segments[1]));
                let joined = first.push('-') + segments[1];
                if joined.contains('/') {
                    let k = choose|k: int| 0 <= k < joined.len() && joined[k] == '/';
                    if k < first.len() {
                        assert(first[k] == '/');
                        assert(first.contains('/'));
                    } else if k > first.len() {
                        assert(segments[1][k - first.len() - 1] == '/');
                        assert(segments[1].contains('/'));
                    }
                }
                assert forall|i: int| 0 <= i < merged.len() implies is_plain(
                    #[trigger] merged[i],
                ) by {
                    if i > 0 {
                        assert(merged[i] == segments[i + 1]);
                    }
                }
            }
            lemma_join_merged(segments);
            lemma_found_path_encodes(fs, base, merged);
        }
    }
}

/// Decoding undoes encoding: the path that an encoded name decodes to
/// encodes to that name again, whatever exists, provided the name holds no
/// separator and no two hyphens in a row, nor one at its end.
pub proof fn lemma_decoded_path_encodes(fs: Set<Seq<char>>, name: Seq<char>)
    requires
        is_encoded(name),
        !name.contains('/'),
        forall|i: int| 0 <= i < segments_of(name).len() ==> (#[trigger] segments_of(name)[i]).len() > 0,
    ensures
        encoded_name(decoded_path(fs, name)) == name,
{
    assert forall|i: int| 0 <= i < name.len() implies name[i] != '/' by {
        if name[i] == '/' {
            assert(name.contains('/'));
        }
    }
    assert(encoded_name(naive_path(name)) =~= name);
    let rest = name.skip(1);
    let segments = segments_of(name);
    lemma_split_on(rest, '-');
    lemma_split_pieces(rest, '-', '/');
    assert(!rest.contains('/')) by {
        if rest.contains('/') {
            let k = choose|k: int| 0 <= k < rest.len() && rest[k] == '/';
            assert(name[k + 1] == '/');
        }
    }
    assert(all_plain(segments));
    let root = seq!['/'];
    lemma_found_path_encodes(fs, root, segments);
    assert(encoded_name(root) =~= seq!['-']);
    assert(seq!['-'] + rest =~= name);
}

// ---------------------------------------------------------------------------
// Path helpers
// ---------------------------------------------------------------------------

/// Extends `base` by the component `name`.
pub fn join_component(base: &str, name: &str) -> (r: String)
    ensures
        r@ == join_path(base@, name@),
{
    proof {
        reveal_strlit("/");
    }
    let name_len = name.unicode_len();
    if name_len > 0 && name.get_char(0) == '/' {
        return name.to_owned();
    }
    let base_len = base.unicode_len();
    let mut out = base.to_owned();
    if base_len > 0 && base.get_char(base_len - 1) != '/' {
        out.append("/");
        assert(out@ =~= base@.push('/'));
    }
    out.append(name);
    out
}

/// Whether `path` is among `existing`.
pub fn path_exists(existing: &Vec<String>, path: &str) -> (r: bool)
    ensures
        r == path_set(existing.deep_view()).contains(path@),
{
    let mut i: usize = 0;
    while i < existing.len()
        invariant
            0 <= i <= existing.len(),
            forall|k: int| 0 <= k < i ==> existing.deep_view()[k] != path@,
        decreases existing.len() - i,
    {
        if str_eq(existing[i].as_str(), path) {
            assert(existing.deep_view()[i as int] == path@);
            return true;
        }
        i = i + 1;
    }
    false
}

fn copy_from(segments: &Vec<String>, from: usize) -> (r: Vec<String>)
    requires
        from <= segments.len(),
    ensures
        r.len() == segments.len() - from,
        r.deep_view() == segments.deep_view().skip(from as int),
{
    let mut out: Vec<String> = Vec::new();
    let mut i: usize = from;
    while i < segments.len()
        invariant
            from <= i <= segments.len(),
            out.len() == i - from,
            forall|k: int| 0 <= k < out.len() ==> (#[trigger] out@[k])@ == segments@[from + k]@,
        decreases segments.len() - i,
    {
        out.push(segments[i].clone());
        i = i + 1;
    }
    assert(out.deep_view() =~= segments.deep_view().skip(from as int));
    out
}

fn merged_segments(segments: &Vec<String>) -> (r: Vec<String>)
    requires
        segments.len() >= 2,
    ensures
        r.len() == segments.len() - 1,
        r.deep_view() == merge_first_two(segments.deep_view()),
{
    proof {
        reveal_strlit("-");
    }
    let mut first = segments[0].clone();
    first.append("-");
    assert(first@ =~= segments@[0]@.push('-'));
    first.append(segments[1].as_str());
    let mut out: Vec<String> = Vec::new();
    out.push(first);
    let mut i: usize = 2;
    while i < segments.len()
        invariant
            2 <= i <= segments.len(),
            out.len() == i - 1,
            out@[0]@ == segments@[0]@.push('-') + segments@[1]@,
            forall|k: int| 1 <= k < out.len() ==> (#[trigger] out@[k])@ == segments@[k + 1]@,
        decreases segments.len() - i,
    {
        out.push(segments[i].clone());
        i = i + 1;
    }
    assert(out.deep_view() =~= merge_first_two(segments.deep_view()));
    out
}

// ---------------------------------------------------------------------------
// Decoding against a list of existing paths
// ---------------------------------------------------------------------------

/// Searches below `base` for a path that reads all of `segments` and whose
/// every directory is among `existing`.
pub fn find_valid_path(base: &str, segments: &Vec<String>, existing: &Vec<String>) -> (r: Option<
    String,
>)
    ensures
        r.deep_view() == find_path(path_set(existing.deep_view()), base@, segments.deep_view()),
    decreases segments.len(),
{
    if segments.len() == 0 {
        return if path_exists(existing, base) {
            Some(base.to_owned())
        } else {
            None
        };
    }
    let next = join_component(base, segments[0].as_str());
    if path_exists(existing, next.as_str()) {
        let rest = copy_from(segments, 1);
        match find_valid_path(next.as_str(), &rest, existing) {
            Some(found) => {
                return Some(found);
            },
            None => {},
        }
    }
    if segments.len() >= 2 {
        let merged = merged_segments(segments);
        return find_valid_path(base, &merged, existing);
    }
    None
}

/// Decodes an encoded project name, such as `-Users-name-project`, into the
/// path it stands for, such as `/Users/name/project`, over a filesystem in
/// which exactly the paths of `existing` exist.
pub fn decode_project_path(encoded: &str, existing: &Vec<String>) -> (r: String)
    ensures
        r@ == decoded_path(path_set(existing.deep_view()), encoded@),
        !is_encoded(encoded@) ==> r@ == encoded@,
{
    let len = encoded.unicode_len();
    if len == 0 || encoded.get_char(0) != '-' {
        return encoded.to_owned();
    }
    let naive = str_replace_char(encoded, '-', '/');
    if path_exists(existing, naive.as_str()) {
        return naive;
    }
    let segments = str_split_on(encoded.substring_char(1, len), '-');
    proof {
        reveal_strlit("/");
        assert("/"@ =~= seq!['/']);
    }
    match find_valid_path("/", &segments, existing) {
        Some(found) => found,
        None => naive,
    }
}

// ---------------------------------------------------------------------------
// Decoding by single questions
// ---------------------------------------------------------------------------

/// A reading still to be tried: the path read so far and the segments left.
#[derive(Debug)]
struct Candidate {
    base: String,
    segments: Vec<String>,
}

pub struct CandidateView {
    pub base: Seq<char>,
    pub segments: Seq<Seq<char>>,
}

impl DeepView for Candidate {
    type V = CandidateView;

    closed spec fn deep_view(&self) -> CandidateView {
        CandidateView { base: self.base@, segments: self.segments.deep_view() }
    }
}

/// The first path found among the candidates, the last candidate first.
pub open spec fn first_found(fs: Set<Seq<char>>, stack: Seq<CandidateView>) -> Option<Seq<char>>
    decreases stack.len(),
{
    if stack.len() == 0 {
        None
    } else {
        match find_path(fs, stack.last().base, stack.last().segments) {
            Some(path) => Some(path),
            None => first_found(fs, stack.drop_last()),
        }
    }
}

/// A bound on the questions that a candidate with `n` segments can raise.
pub open spec fn weight(n: nat) -> nat
    decreases n,
{
    if n == 0 {
        1
    } else {
        2 * weight((n - 1) as nat) + 1
    }
}

pub open spec fn total_weight(stack: Seq<CandidateView>) -> nat
    decreases stack.len(),
{
    if stack.len() == 0 {
        0
    } else {
        total_weight(stack.drop_last()) + weight(stack.last().segments.len())
    }
}

proof fn lemma_push_candidate(fs: Set<Seq<char>>, stack: Seq<CandidateView>, c: CandidateView)
    ensures
        first_found(fs, stack.push(c)) == match find_path(fs, c.base, c.segments) {
            Some(path) => Some(path),
            None => first_found(fs, stack),
        },
        total_weight(stack.push(c)) == total_weight(stack) + weight(c.segments.len()),
{
    assert(stack.push(c).drop_last() =~= stack);
}

/// The decoding of one name as a sequence of questions, each of the form
/// "does this path exist?".
///
/// The caller asks [`PathSearch::next_probe`] for the path in question, finds
/// out whether it exists, and hands the answer to [`PathSearch::answer`],
/// until no question is left; [`PathSearch::result`] then holds the decoded
/// path. If every answer is true of one filesystem, the result is the
/// decoding of the name over that filesystem.
#[derive(Debug)]
pub struct PathSearch {
    stack: Vec<Candidate>,
    found: Option<String>,
    fallback: String,
}

impl PathSearch {
    /// The path that the search ends with if every answer still to come is
    /// true of `fs`.
    pub closed spec fn outcome(&self, fs: Set<Seq<char>>) -> Seq<char> {
        match self.found {
            Some(path) => path@,
            None => match first_found(fs, self.stack.deep_view()) {
                Some(path) => path,
                None => self.fallback@,
            },
        }
    }

    /// The path whose existence is in question, if any question is left.
    pub closed spec fn pending(&self) -> Option<Seq<char>> {
        if self.found is Some || self.stack@.len() == 0 {
            None
        } else {
            let top = self.stack.deep_view().last();
            if top.segments.len() == 0 {
                Some(top.base)
            } else {
                Some(join_path(top.base, top.segments[0]))
            }
        }
    }

    /// A bound on the number of questions left.
    pub closed spec fn work(&self) -> nat {
        if self.found is Some {
            0
        } else {
            total_weight(self.stack.deep_view())
        }
    }

    /// Starts the decoding of `encoded`.
    pub fn new(encoded: &str) -> (r: PathSearch)
        ensures
            forall|fs: Set<Seq<char>>| #[trigger] r.outcome(fs) == decoded_path(fs, encoded@),
            !is_encoded(encoded@) ==> r.pending() is None,
    {
        let len = encoded.unicode_len();
        if len == 0 || encoded.get_char(0) != '-' {
            let r = PathSearch { stack: Vec::new(), found: None, fallback: encoded.to_owned() };
            assert(r.stack.deep_view() =~= Seq::<CandidateView>::empty());
            return r;
        }
        let naive = str_replace_char(encoded, '-', '/');
        let segments = str_split_on(encoded.substring_char(1, len), '-');
        proof {
            reveal_strlit("/");
            assert("/"@ =~= seq!['/']);
        }
        let root = Candidate { base: "/".to_owned(), segments };
        let direct = Candidate { base: naive.clone(), segments: Vec::new() };
        let ghost root_view = root.deep_view();
        let ghost direct_view = direct.deep_view();
        let mut stack: Vec<Candidate> = Vec::new();
        stack.push(root);
        stack.push(direct);
        let r = PathSearch { stack, found: None, fallback: naive };
        proof {
            let empty = Seq::<CandidateView>::empty();
            assert(r.stack.deep_view() =~= empty.push(root_view).push(direct_view));
            assert(direct_view.segments =~= Seq::<Seq<char>>::empty());
            assert forall|fs: Set<Seq<char>>| #[trigger] r.outcome(fs) == decoded_path(
                fs,
                encoded@,
            ) by {
                lemma_push_candidate(fs, empty, root_view);
                lemma_push_candidate(fs, empty.push(root_view), direct_view);
            }
        }
        r
    }

    /// The path whose existence is in question, or `None` when the search is
    /// over.
    pub fn next_probe(&self) -> (r: Option<String>)
        ensures
            r.deep_view() == self.pending(),
    {
        if self.found.is_some() || self.stack.len() == 0 {
            return None;
        }
        let top = &self.stack[self.stack.len() - 1];
        assert(self.stack.deep_view().last() == top.deep_view());
        if top.segments.len() == 0 {
            Some(top.base.clone())
        } else {
            assert(top.segments.deep_view()[0] == top.segments@[0]@);
            Some(join_component(top.base.as_str(), top.segments[0].as_str()))
        }
    }

    /// Takes the answer to the pending question. Where the answer is true of
    /// a filesystem, the outcome over that filesystem stays what it was, and
    /// the bound on the questions left goes down. With no question pending
    /// nothing changes.
    pub fn answer(&mut self, exists: bool)
        ensures
            old(self).pending() is None ==> final(self).pending() is None && final(self).work()
                == old(self).work() && forall|fs: Set<Seq<char>>|
                #[trigger] final(self).outcome(fs) == old(self).outcome(fs),
            old(self).pending() matches Some(path) ==> final(self).work() < old(self).work()
                && forall|fs: Set<Seq<char>>|
                fs.contains(path) == exists ==> #[trigger] final(self).outcome(fs) == old(
                    self,
                ).outcome(fs),
    {
        if self.found.is_some() || self.stack.len() == 0 {
            return;
        }
        let ghost before = self.stack.deep_view();
        let ghost fallback = self.fallback@;
        let top = self.stack.pop().unwrap();
        let ghost rest = self.stack.deep_view();
        let ghost top_view = top.deep_view();
        proof {
            assert(before =~= rest.push(top_view));
            assert forall|fs: Set<Seq<char>>| true implies #[trigger] first_found(fs, before)
                == (match find_path(fs, top_view.base, top_view.segments) {
                Some(path) => Some(path),
                None => first_found(fs, rest),
            }) && total_weight(before) == total_weight(rest) + weight(top_view.segments.len()) by {
                lemma_push_candidate(fs, rest, top_view);
            }
            lemma_push_candidate(Set::empty(), rest, top_view);
        }
        if top.segments.len() == 0 {
            if exists {
                self.found = Some(top.base);
            }
        } else {
            assert(top.segments.deep_view()[0] == top.segments@[0]@);
            let ghost next_view = join_path(top_view.base, top_view.segments[0]);
            let ghost mut middle = rest;
            if top.segments.len() >= 2 {
                let merged = merged_segments(&top.segments);
                let other = Candidate { base: top.base.clone(), segments: merged };
                let ghost other_view = other.deep_view();
                self.stack.push(other);
                proof {
                    middle = rest.push(other_view);
                    assert(self.stack.deep_view() =~= middle);
                    assert forall|fs: Set<Seq<char>>| true implies #[trigger] first_found(fs, middle)
                        == (match find_path(fs, top_view.base, merge_first_two(top_view.segments)) {
                        Some(path) => Some(path),
                        None => first_found(fs, rest),
                    }) by {
                        lemma_push_candidate(fs, rest, other_view);
                    }
                    lemma_push_candidate(Set::empty(), rest, other_view);
                }
            }
            if exists {
                let next = join_component(top.base.as_str(), top.segments[0].as_str());
                let tail = copy_from(&top.segments, 1);
                let deeper = Candidate { base: next, segments: tail };
                let ghost deeper_view = deeper.deep_view();
                self.stack.push(deeper);
                proof {
                    assert(self.stack.deep_view() =~= middle.push(deeper_view));
                    assert forall|fs: Set<Seq<char>>| true implies #[trigger] first_found(
                        fs,
                        middle.push(deeper_view),
                    ) == (match find_path(fs, next_view, top_view.segments.skip(1)) {
                        Some(path) => Some(path),
                        None => first_found(fs, middle),
                    }) by {
                        lemma_push_candidate(fs, middle, deeper_view);
                    }
                    lemma_push_candidate(Set::empty(), middle, deeper_view);
                }
            }
            proof {
                let n = top_view.segments.len();
                assert(weight(n) == 2 * weight((n - 1) as nat) + 1);
            }
        }
    }

    /// The decoded path, once no question is left; `None` before that.
    pub fn result(&self) -> (r: Option<String>)
        ensures
            self.pending() is Some ==> r is None,
            self.pending() is None ==> r is Some && forall|fs: Set<Seq<char>>|
                r.unwrap()@ == #[trigger] self.outcome(fs),
    {
        match &self.found {
            Some(path) => Some(path.clone()),
            None => {
                if self.stack.len() == 0 {
                    assert(self.stack.deep_view() =~= Seq::<CandidateView>::empty());
                    Some(self.fallback.clone())
                } else {
                    None
                }
            },
        }
    }
}

} // verus!
