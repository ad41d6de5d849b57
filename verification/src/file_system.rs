//! Validated path components, relative paths with "up one level" semantics,
//! and absolute paths built from validated components.
//!
//! A `RelativePath` can only be resolved against an `AbsolutePath` through
//! `RelativePath::resolve`, which fails whenever the path would climb above
//! the root of the base; no operation here ever delegates `..` handling to
//! the platform.

use vstd::prelude::*;

verus! {

/// The separator bytes that a single path component may never contain:
/// forward slash and backslash.
pub open spec fn is_separator(b: u8) -> bool {
    b == 47 || b == 92
}

/// A single component is valid when it is non-empty and free of separators.
/// The check is on raw bytes, so it cannot be bypassed by text that does not
/// decode as Unicode.
pub open spec fn valid_file_name(s: Seq<u8>) -> bool {
    s.len() > 0 && forall|i: int| 0 <= i < s.len() ==> !is_separator(#[trigger] s[i])
}

/// Why a component or a resolution was rejected.
#[derive(Debug, Clone, Copy, PartialEq, Eq, Structural)]
pub enum ValidationError {
    /// A component was empty.
    EmptyName,
    /// A component contained a separator byte.
    SeparatorInName,
    /// A path would have resolved above the root of its base.
    EscapesBase,
}

/// The error that `FileName::new` reports for an invalid raw component.
pub open spec fn name_error(s: Seq<u8>) -> ValidationError {
    if s.len() == 0 {
        ValidationError::EmptyName
    } else {
        ValidationError::SeparatorInName
    }
}

/// One validated path component: non-empty, no separator bytes.
#[derive(Debug, Clone, PartialEq, Eq)]
pub struct FileName(Vec<u8>);

impl View for FileName {
    type V = Seq<u8>;

    closed spec fn view(&self) -> Seq<u8> {
        self.0@
    }
}

impl FileName {
    /// Validates a raw component, at the byte level.
    pub fn new(s: Vec<u8>) -> (r: Result<Self, ValidationError>)
        ensures
            r matches Ok(f) ==> f@ == s@ && valid_file_name(s@),
            r matches Err(e) ==> !valid_file_name(s@) && e == name_error(s@),
    {
        if s.len() == 0 {
            return Err(ValidationError::EmptyName);
        }
        if Self::contains_illegal_chars(&s) {
            return Err(ValidationError::SeparatorInName);
        }
        Ok(FileName(s))
    }

    /// A copy of the raw bytes of the component.
    pub fn file_name(&self) -> (r: Vec<u8>)
        ensures
            r@ == self@,
    {
        let r = self.0.clone();
        proof {
            assert(r@ =~= self.0@);
        }
        r
    }

    /// Reports whether the raw bytes hold a separator.
    pub fn contains_illegal_chars(s: &Vec<u8>) -> (r: bool)
        ensures
            r == exists|i: int| 0 <= i < s@.len() && is_separator(#[trigger] s@[i]),
    {
        let mut i: usize = 0;
        while i < s.len()
            invariant
                0 <= i <= s@.len(),
                forall|j: int| 0 <= j < i ==> !is_separator(#[trigger] s@[j]),
            decreases s@.len() - i,
        {
            let b = s[i];
            if b == 47 || b == 92 {
                return true;
            }
            i = i + 1;
        }
        false
    }

    /// A structurally equal copy whose view is known to match.
    pub fn duplicate(&self) -> (r: Self)
        ensures
            r@ == self@,
    {
        FileName(self.file_name())
    }

    /// The raw bytes of the component, borrowed.
    pub fn as_bytes(&self) -> (r: &Vec<u8>)
        ensures
            r@ == self@,
    {
        &self.0
    }

    /// Wraps raw bytes without validation, for data read back from a
    /// persisted record, where the bytes are whatever was recorded.
    pub(crate) fn from_raw(bytes: Vec<u8>) -> (r: Self)
        ensures
            r@ == bytes@,
    {
        FileName(bytes)
    }
}

/// Spec-level form of one relative-path component.
pub enum PathComponentView {
    Super,
    Name(Seq<u8>),
}

/// One step of a relative path: either "up one level" or a named child.
#[derive(Debug, Clone)]
pub enum RelativePathComponent {
    Super,
    Component(FileName),
}

impl View for RelativePathComponent {
    type V = PathComponentView;

    open spec fn view(&self) -> PathComponentView {
        match self {
            RelativePathComponent::Super => PathComponentView::Super,
            RelativePathComponent::Component(f) => PathComponentView::Name(f@),
        }
    }
}

/// The raw spelling of the "current directory" segment, always discarded.
pub open spec fn dot() -> Seq<u8> {
    seq![46u8]
}

/// The raw spelling of the "up one level" segment.
pub open spec fn dot_dot() -> Seq<u8> {
    seq![46u8, 46u8]
}

/// In a normalized path a `Super` can only stand at the front: appending a
/// `Super` cancels a preceding name instead of following it.
pub open spec fn normalized(s: Seq<PathComponentView>) -> bool {
    forall|i: int| 0 < i < s.len() && (#[trigger] s[i]) is Super ==> s[i - 1] is Super
}

/// Every component of the path can be spelled back as a raw segment and
/// re-validated without change: names are valid and are not the literal
/// "." or ".." spellings.
pub open spec fn replayable_component(c: PathComponentView) -> bool {
    match c {
        PathComponentView::Super => true,
        PathComponentView::Name(n) => valid_file_name(n) && n != dot() && n != dot_dot(),
    }
}

pub open spec fn replayable(s: Seq<PathComponentView>) -> bool {
    forall|i: int| 0 <= i < s.len() ==> replayable_component(#[trigger] s[i])
}

/// Appending one component to a normalized path: a `Super` cancels a trailing
/// name; on an empty path or after another `Super` it accumulates.
pub open spec fn norm_push(s: Seq<PathComponentView>, c: PathComponentView) -> Seq<PathComponentView> {
    match c {
        PathComponentView::Super => {
            if s.len() > 0 && s.last() is Name {
                s.drop_last()
            } else {
                s.push(PathComponentView::Super)
            }
        },
        PathComponentView::Name(_) => s.push(c),
    }
}

/// Folding one raw segment into a normalized path: "." is discarded, ".."
/// becomes a `Super` push, anything else a name push.
pub open spec fn norm_part(s: Seq<PathComponentView>, part: Seq<u8>) -> Seq<PathComponentView> {
    if part == dot() {
        s
    } else if part == dot_dot() {
        norm_push(s, PathComponentView::Super)
    } else {
        norm_push(s, PathComponentView::Name(part))
    }
}

/// The normalized form of the first `n` raw segments.
pub open spec fn norm_parts_prefix(parts: Seq<Seq<u8>>, n: int) -> Seq<PathComponentView>
    decreases n,
{
    if n <= 0 {
        Seq::empty()
    } else {
        norm_part(norm_parts_prefix(parts, n - 1), parts[n - 1])
    }
}

/// The normalized form of a whole sequence of raw segments.
pub open spec fn norm_parts(parts: Seq<Seq<u8>>) -> Seq<PathComponentView> {
    norm_parts_prefix(parts, parts.len() as int)
}

/// How many "up one level" steps the path takes.
pub open spec fn super_count(s: Seq<PathComponentView>) -> nat
    decreases s.len(),
{
    if s.len() == 0 {
        0
    } else {
        super_count(s.drop_first()) + (if s[0] is Super {
            1nat
        } else {
            0nat
        })
    }
}

/// The named components of the path, in order.
pub open spec fn names_of(s: Seq<PathComponentView>) -> Seq<Seq<u8>>
    decreases s.len(),
{
    if s.len() == 0 {
        Seq::empty()
    } else {
        match s[0] {
            PathComponentView::Super => names_of(s.drop_first()),
            PathComponentView::Name(n) => seq![n] + names_of(s.drop_first()),
        }
    }
}

/// One resolution step against a cursor of absolute-path components; `None`
/// marks the cursor having been asked to climb above its root.
pub open spec fn apply_component(cur: Option<Seq<Seq<u8>>>, c: PathComponentView) -> Option<
    Seq<Seq<u8>>,
> {
    match cur {
        Option::None => Option::None,
        Option::Some(p) => match c {
            PathComponentView::Super => {
                if p.len() == 0 {
                    Option::None
                } else {
                    Option::Some(p.drop_last())
                }
            },
            PathComponentView::Name(n) => Option::Some(p.push(n)),
        },
    }
}

/// Resolution as a left fold over the components.
pub open spec fn resolve_from(cur: Option<Seq<Seq<u8>>>, s: Seq<PathComponentView>) -> Option<
    Seq<Seq<u8>>,
>
    decreases s.len(),
{
    if s.len() == 0 {
        cur
    } else {
        resolve_from(apply_component(cur, s[0]), s.drop_first())
    }
}

/// What resolving a relative path against a base yields, or `None` when the
/// path escapes the base.
pub open spec fn resolve_path(base: Seq<Seq<u8>>, s: Seq<PathComponentView>) -> Option<Seq<Seq<u8>>> {
    resolve_from(Option::Some(base), s)
}

/// The deep view of a vector of byte vectors indexes to the plain views of
/// its elements.
proof fn lemma_deep_view_bytes(parts: &Vec<Vec<u8>>)
    ensures
        parts.deep_view().len() == parts@.len(),
        forall|k: int| 0 <= k < parts@.len() ==> #[trigger] parts.deep_view()[k] == parts@[k]@,
{
    assert forall|k: int| 0 <= k < parts@.len() implies #[trigger] parts.deep_view()[k]
        == parts@[k]@ by {
        assert(parts@[k].deep_view() =~= parts@[k]@);
    }
}

proof fn lemma_resolve_from_none(s: Seq<PathComponentView>)
    ensures
        resolve_from(Option::None, s) is None,
    decreases s.len(),
{
    if s.len() > 0 {
        lemma_resolve_from_none(s.drop_first());
    }
}

proof fn lemma_normalized_drop_first(s: Seq<PathComponentView>)
    requires
        normalized(s),
        s.len() > 0,
    ensures
        normalized(s.drop_first()),
{
    assert forall|i: int|
        0 < i < s.drop_first().len() && (#[trigger] s.drop_first()[i]) is Super implies s.drop_first()[i
        - 1] is Super by {
        assert(s.drop_first()[i] == s[i + 1]);
        assert(s.drop_first()[i - 1] == s[i]);
    }
}

proof fn lemma_normalized_head_name(s: Seq<PathComponentView>)
    requires
        normalized(s),
        s.len() > 0,
        s[0] is Name,
    ensures
        forall|i: int| 0 <= i < s.len() ==> (#[trigger] s[i]) is Name,
        super_count(s) == 0,
    decreases s.len(),
{
    if s.len() > 1 {
        assert(!(s[1] is Super));
        lemma_normalized_drop_first(s);
        lemma_normalized_head_name(s.drop_first());
        assert forall|i: int| 0 <= i < s.len() implies (#[trigger] s[i]) is Name by {
            if i > 0 {
                assert(s.drop_first()[i - 1] == s[i]);
            }
        }
        assert(super_count(s) == super_count(s.drop_first()));
    } else {
        assert(s.drop_first().len() == 0);
        assert(super_count(s.drop_first()) == 0);
    }
}

proof fn lemma_resolve_all_names(p: Seq<Seq<u8>>, s: Seq<PathComponentView>)
    requires
        forall|i: int| 0 <= i < s.len() ==> (#[trigger] s[i]) is Name,
    ensures
        resolve_from(Option::Some(p), s) == Option::Some(p + names_of(s)),
    decreases s.len(),
{
    if s.len() == 0 {
        assert(p + names_of(s) =~= p);
    } else {
        let n = s[0]->Name_0;
        assert(forall|i: int|
            0 <= i < s.drop_first().len() ==> (#[trigger] s.drop_first()[i]) is Name);
        lemma_resolve_all_names(p.push(n), s.drop_first());
        assert(p.push(n) + names_of(s.drop_first()) =~= p + names_of(s));
    }
}

/// The central fact about resolution of a normalized path: it succeeds
/// exactly when the base has enough components to absorb the leading
/// `Super` steps, and then yields the shortened base followed by the names.
pub proof fn lemma_resolve_normalized(base: Seq<Seq<u8>>, s: Seq<PathComponentView>)
    requires
        normalized(s),
    ensures
        super_count(s) <= base.len() ==> resolve_path(base, s) == Option::Some(
            base.take(base.len() - super_count(s)) + names_of(s),
        ),
        super_count(s) > base.len() ==> resolve_path(base, s) is None,
    decreases s.len(),
{
    if s.len() == 0 {
        assert(base.take(base.len() as int) + names_of(s) =~= base);
    } else if s[0] is Super {
        lemma_normalized_drop_first(s);
        if base.len() == 0 {
            lemma_resolve_from_none(s.drop_first());
        } else {
            let shorter = base.drop_last();
            lemma_resolve_normalized(shorter, s.drop_first());
            let rest_count = super_count(s.drop_first());
            if rest_count <= shorter.len() {
                assert(shorter.take(shorter.len() - rest_count) =~= base.take(
                    base.len() - super_count(s),
                ));
            }
        }
    } else {
        lemma_normalized_head_name(s);
        lemma_resolve_all_names(base, s);
        assert(base.take(base.len() as int) + names_of(s) =~= base + names_of(s));
    }
}

/// The views of a sequence of validated components.
pub open spec fn views_of_names(s: Seq<FileName>) -> Seq<Seq<u8>> {
    s.map_values(|f: FileName| f@)
}

proof fn lemma_views_of_names_push(s: Seq<FileName>, f: FileName)
    ensures
        views_of_names(s.push(f)) == views_of_names(s).push(f@),
{
    assert(views_of_names(s.push(f)) =~= views_of_names(s).push(f@));
}

/// However components are appended, the normalized count moves by at most
/// one per step and, being a length, can never fall below zero.
pub proof fn lemma_norm_push_len(s: Seq<PathComponentView>, c: PathComponentView)
    ensures
        norm_push(s, c).len() >= s.len() - 1,
        norm_push(s, c).len() <= s.len() + 1,
{
}

/// The raw segment that re-spells one normalized component.
pub open spec fn raw_of(c: PathComponentView) -> Seq<u8> {
    match c {
        PathComponentView::Super => dot_dot(),
        PathComponentView::Name(n) => n,
    }
}

/// The raw segments that re-spell a whole normalized path.
pub open spec fn raws_of(s: Seq<PathComponentView>) -> Seq<Seq<u8>> {
    s.map_values(|c: PathComponentView| raw_of(c))
}

proof fn lemma_norm_parts_prefix_agree(a: Seq<Seq<u8>>, b: Seq<Seq<u8>>, n: int)
    requires
        forall|i: int| 0 <= i < n ==> a[i] == b[i],
    ensures
        norm_parts_prefix(a, n) == norm_parts_prefix(b, n),
    decreases n,
{
    if n > 0 {
        lemma_norm_parts_prefix_agree(a, b, n - 1);
    }
}

/// Validation is idempotent: spelling a normalized, replayable path back
/// into raw segments and folding those segments again reproduces the very
/// same path. Every such segment is also a valid name, so through
/// `RelativePath::new` the re-validation returns `Ok` and never changes the
/// normalized form.
pub proof fn lemma_revalidation_idempotent(s: Seq<PathComponentView>)
    requires
        normalized(s),
        replayable(s),
    ensures
        norm_parts(raws_of(s)) == s,
        forall|i: int| 0 <= i < raws_of(s).len() ==> valid_file_name(#[trigger] raws_of(s)[i]),
    decreases s.len(),
{
    assert forall|i: int| 0 <= i < raws_of(s).len() implies valid_file_name(
        #[trigger] raws_of(s)[i],
    ) by {
        assert(replayable_component(s[i]));
        assert(valid_file_name(dot_dot()));
    }
    if s.len() == 0 {
        assert(raws_of(s).len() == 0);
    } else {
        let sdl = s.drop_last();
        assert forall|i: int| 0 < i < sdl.len() && (#[trigger] sdl[i]) is Super implies sdl[i
            - 1] is Super by {
            assert(sdl[i] == s[i] && sdl[i - 1] == s[i - 1]);
        }
        assert forall|i: int| 0 <= i < sdl.len() implies replayable_component(
            #[trigger] sdl[i],
        ) by {
            assert(sdl[i] == s[i]);
        }
        lemma_revalidation_idempotent(sdl);
        lemma_norm_parts_prefix_agree(raws_of(s), raws_of(sdl), s.len() - 1);
        assert(norm_parts_prefix(raws_of(s), s.len() - 1) == sdl);
        assert(norm_parts(raws_of(s)) == norm_part(sdl, raw_of(s.last())));
        assert(dot_dot().len() == 2 && dot().len() == 1);
        match s.last() {
            PathComponentView::Super => {
                if sdl.len() > 0 {
                    assert(s[s.len() - 1] is Super);
                    assert(s[s.len() - 2] is Super);
                    assert(sdl.last() == s[s.len() - 2]);
                }
                assert(sdl.push(PathComponentView::Super) =~= s);
            },
            PathComponentView::Name(n) => {
                assert(replayable_component(s.last()));
                assert(sdl.push(PathComponentView::Name(n)) =~= s);
            },
        }
    }
}

/// The textual bytes of the first `n` components of an absolute path, each
/// preceded by a forward slash.
pub open spec fn path_bytes_prefix(s: Seq<Seq<u8>>, n: int) -> Seq<u8>
    decreases n,
{
    if n <= 0 {
        Seq::empty()
    } else {
        path_bytes_prefix(s, n - 1) + seq![47u8] + s[n - 1]
    }
}

/// The textual bytes of an absolute path: "/" for the root, otherwise the
/// components each preceded by a slash.
pub open spec fn path_bytes(s: Seq<Seq<u8>>) -> Seq<u8> {
    if s.len() == 0 {
        seq![47u8]
    } else {
        path_bytes_prefix(s, s.len() as int)
    }
}

/// A sequence of validated components, understood as an absolute path below
/// the filesystem root: the root itself has no components and no parent.
#[derive(Debug, Clone, PartialEq, Eq)]
pub struct AbsolutePath {
    components: Vec<FileName>,
}

impl View for AbsolutePath {
    type V = Seq<Seq<u8>>;

    closed spec fn view(&self) -> Seq<Seq<u8>> {
        views_of_names(self.components@)
    }
}

impl AbsolutePath {
    /// The filesystem root.
    pub fn root() -> (r: Self)
        ensures
            r@ == Seq::<Seq<u8>>::empty(),
    {
        let r = AbsolutePath { components: Vec::new() };
        proof {
            assert(r@ =~= Seq::<Seq<u8>>::empty());
        }
        r
    }

    /// Builds an absolute path from raw components, validating each one.
    pub fn new(parts: Vec<Vec<u8>>) -> (r: Result<Self, ValidationError>)
        ensures
            r is Ok <==> (forall|i: int|
                0 <= i < parts@.len() ==> valid_file_name(#[trigger] parts@[i]@)),
            r matches Ok(p) ==> p@ == parts.deep_view(),
            r matches Err(e) ==> exists|i: int|
                0 <= i < parts@.len() && !valid_file_name(#[trigger] parts@[i]@) && e == name_error(
                    parts@[i]@,
                ) && (forall|j: int| 0 <= j < i ==> valid_file_name(#[trigger] parts@[j]@)),
    {
        proof {
            lemma_deep_view_bytes(&parts);
        }
        let mut components: Vec<FileName> = Vec::new();
        let mut i: usize = 0;
        while i < parts.len()
            invariant
                0 <= i <= parts@.len(),
                parts.deep_view().len() == parts@.len(),
                forall|k: int| 0 <= k < parts@.len() ==> #[trigger] parts.deep_view()[k]
                    == parts@[k]@,
                views_of_names(components@) == parts.deep_view().take(i as int),
                forall|j: int| 0 <= j < i ==> valid_file_name(#[trigger] parts@[j]@),
            decreases parts@.len() - i,
        {
            let part = parts[i].clone();
            proof {
                assert(part@ =~= parts@[i as int]@);
            }
            match FileName::new(part) {
                Ok(f) => {
                    let ghost before = components@;
                    proof {
                        lemma_views_of_names_push(before, f);
                    }
                    components.push(f);
                    proof {
                        assert(views_of_names(components@) =~= parts.deep_view().take(i + 1));
                    }
                },
                Err(e) => {
                    return Err(e);
                },
            }
            i = i + 1;
        }
        let r = AbsolutePath { components };
        proof {
            assert(parts.deep_view().take(i as int) =~= parts.deep_view());
        }
        Ok(r)
    }

    /// Assembles a path from already-validated components.
    pub fn from_components(components: Vec<FileName>) -> (r: Self)
        ensures
            r@ == views_of_names(components@),
    {
        AbsolutePath { components }
    }

    /// The number of components below the root.
    pub fn depth(&self) -> (r: usize)
        ensures
            r == self@.len(),
    {
        self.components.len()
    }

    /// The validated components, for callers that translate the path into a
    /// platform form.
    pub fn parts(&self) -> (r: &Vec<FileName>)
        ensures
            r@.map_values(|f: FileName| f@) == self@,
    {
        &self.components
    }

    /// A structurally equal copy whose view is known to match.
    pub fn duplicate(&self) -> (r: Self)
        ensures
            r@ == self@,
    {
        let mut components: Vec<FileName> = Vec::new();
        let mut i: usize = 0;
        while i < self.components.len()
            invariant
                0 <= i <= self.components@.len(),
                self@.len() == self.components@.len(),
                views_of_names(components@) == self@.take(i as int),
            decreases self.components@.len() - i,
        {
            let dup = self.components[i].duplicate();
            let ghost before = components@;
            proof {
                lemma_views_of_names_push(before, dup);
            }
            components.push(dup);
            proof {
                assert(views_of_names(before).push(dup@) =~= self@.take(i + 1));
            }
            i = i + 1;
        }
        let r = AbsolutePath { components };
        proof {
            assert(self@.take(self@.len() as int) =~= self@);
        }
        r
    }

    /// Renders the path as bytes, with a forward slash before every
    /// component and a single slash for the root.
    pub fn to_bytes(&self) -> (r: Vec<u8>)
        ensures
            r@ == path_bytes(self@),
    {
        if self.components.len() == 0 {
            let mut v: Vec<u8> = Vec::new();
            v.push(47);
            proof {
                assert(v@ =~= seq![47u8]);
            }
            return v;
        }
        let mut v: Vec<u8> = Vec::new();
        let mut i: usize = 0;
        proof {
            assert(v@ =~= path_bytes_prefix(self@, 0));
        }
        while i < self.components.len()
            invariant
                0 <= i <= self.components@.len(),
                self@.len() == self.components@.len(),
                v@ == path_bytes_prefix(self@, i as int),
            decreases self.components@.len() - i,
        {
            v.push(47);
            let ghost with_slash = v@;
            let part = &self.components[i].0;
            let mut j: usize = 0;
            while j < part.len()
                invariant
                    0 <= j <= part@.len(),
                    v@ == with_slash + part@.take(j as int),
                decreases part@.len() - j,
            {
                v.push(part[j]);
                proof {
                    assert(v@ =~= with_slash + part@.take(j + 1));
                }
                j = j + 1;
            }
            proof {
                assert(part@.take(part@.len() as int) =~= part@);
                assert(self@[i as int] == part@);
                assert(v@ =~= path_bytes_prefix(self@, i + 1));
            }
            i = i + 1;
        }
        v
    }

    /// Extends the path by one validated component.
    pub fn push(&mut self, f: FileName)
        ensures
            final(self)@ == old(self)@.push(f@),
    {
        proof {
            lemma_views_of_names_push(self.components@, f);
        }
        self.components.push(f);
    }
}

/// The views of a sequence of relative-path components.
pub open spec fn views_of_rel_components(s: Seq<RelativePathComponent>) -> Seq<PathComponentView> {
    s.map_values(|c: RelativePathComponent| c@)
}

proof fn lemma_views_of_rel_components_push(s: Seq<RelativePathComponent>, c: RelativePathComponent)
    ensures
        views_of_rel_components(s.push(c)) == views_of_rel_components(s).push(c@),
{
    assert(views_of_rel_components(s.push(c)) =~= views_of_rel_components(s).push(c@));
}

proof fn lemma_views_of_rel_components_drop_last(s: Seq<RelativePathComponent>)
    requires
        s.len() > 0,
    ensures
        views_of_rel_components(s.drop_last()) == views_of_rel_components(s).drop_last(),
{
    assert(views_of_rel_components(s.drop_last()) =~= views_of_rel_components(s).drop_last());
}

/// An ordered, normalized sequence of relative-path components.
#[derive(Debug, Clone)]
pub struct RelativePath(Vec<RelativePathComponent>);

impl View for RelativePath {
    type V = Seq<PathComponentView>;

    closed spec fn view(&self) -> Seq<PathComponentView> {
        views_of_rel_components(self.0@)
    }
}

impl RelativePath {
    /// The path is kept normalized, and each of its names re-validates as it
    /// stands.
    pub open spec fn wf(self) -> bool {
        normalized(self@) && replayable(self@)
    }

    /// The empty relative path.
    pub fn empty() -> (r: Self)
        ensures
            r@ == Seq::<PathComponentView>::empty(),
            r.wf(),
    {
        let r = RelativePath(Vec::new());
        proof {
            assert(r@ =~= Seq::<PathComponentView>::empty());
        }
        r
    }

    /// Folds raw segments into a validated, normalized path; fails atomically
    /// on the first invalid segment.
    pub fn new(parts: Vec<Vec<u8>>) -> (r: Result<Self, ValidationError>)
        ensures
            r is Ok <==> (forall|i: int|
                0 <= i < parts@.len() ==> valid_file_name(#[trigger] parts@[i]@)),
            r matches Ok(p) ==> p@ == norm_parts(parts.deep_view()) && p.wf(),
            r matches Err(e) ==> exists|i: int|
                0 <= i < parts@.len() && !valid_file_name(#[trigger] parts@[i]@) && e == name_error(
                    parts@[i]@,
                ) && (forall|j: int| 0 <= j < i ==> valid_file_name(#[trigger] parts@[j]@)),
    {
        proof {
            lemma_deep_view_bytes(&parts);
        }
        let mut path = RelativePath::empty();
        let mut i: usize = 0;
        while i < parts.len()
            invariant
                0 <= i <= parts@.len(),
                parts.deep_view().len() == parts@.len(),
                forall|k: int| 0 <= k < parts@.len() ==> #[trigger] parts.deep_view()[k]
                    == parts@[k]@,
                path@ == norm_parts_prefix(parts.deep_view(), i as int),
                path.wf(),
                forall|j: int| 0 <= j < i ==> valid_file_name(#[trigger] parts@[j]@),
            decreases parts@.len() - i,
        {
            let part = parts[i].clone();
            proof {
                assert(part@ =~= parts@[i as int]@);
                assert(parts.deep_view()[i as int] == parts@[i as int]@);
            }
            let is_dot = part.len() == 1 && part[0] == 46;
            let is_dot_dot = part.len() == 2 && part[0] == 46 && part[1] == 46;
            proof {
                if is_dot {
                    assert(part@ =~= dot());
                }
                if part@ == dot() {
                    assert(part@[0] == 46);
                }
                if is_dot_dot {
                    assert(part@ =~= dot_dot());
                }
                if part@ == dot_dot() {
                    assert(part@[0] == 46 && part@[1] == 46);
                }
            }
            if is_dot {
                proof {
                    assert(valid_file_name(part@));
                }
            } else if is_dot_dot {
                proof {
                    assert(valid_file_name(part@));
                }
                path.push(RelativePathComponent::Super);
            } else {
                match FileName::new(part) {
                    Ok(f) => {
                        path.push(RelativePathComponent::Component(f));
                    },
                    Err(e) => {
                        return Err(e);
                    },
                }
            }
            i = i + 1;
        }
        Ok(path)
    }

    /// Appends one component, keeping the path normalized: a `Super` cancels
    /// a trailing name and otherwise accumulates.
    pub fn push(&mut self, component: RelativePathComponent)
        requires
            old(self).wf(),
        ensures
            final(self)@ == norm_push(old(self)@, component@),
            normalized(final(self)@),
            replayable_component(component@) ==> final(self).wf(),
    {
        let ghost old_view = self@;
        let ghost cv = component@;
        match component {
            RelativePathComponent::Super => {
                let n = self.0.len();
                let cancel = if n > 0 {
                    match self.0[n - 1] {
                        RelativePathComponent::Component(_) => true,
                        RelativePathComponent::Super => false,
                    }
                } else {
                    false
                };
                if cancel {
                    proof {
                        lemma_views_of_rel_components_drop_last(self.0@);
                    }
                    self.0.pop();
                } else {
                    proof {
                        lemma_views_of_rel_components_push(self.0@, RelativePathComponent::Super);
                    }
                    self.0.push(RelativePathComponent::Super);
                }
            },
            RelativePathComponent::Component(f) => {
                proof {
                    lemma_views_of_rel_components_push(
                        self.0@,
                        RelativePathComponent::Component(f),
                    );
                }
                self.0.push(RelativePathComponent::Component(f));
            },
        }
        proof {
            let s = self@;
            assert forall|i: int| 0 < i < s.len() && (#[trigger] s[i]) is Super implies s[i
                - 1] is Super by {
                if i < old_view.len() {
                    assert(old_view[i] == s[i] && old_view[i - 1] == s[i - 1]);
                }
            }
            if replayable_component(cv) {
                assert forall|i: int| 0 <= i < s.len() implies replayable_component(
                    #[trigger] s[i],
                ) by {
                    if i < old_view.len() {
                        assert(old_view[i] == s[i]);
                    }
                }
            }
        }
    }

    /// The normalized components, oldest first.
    pub fn components(&self) -> (r: &Vec<RelativePathComponent>)
        ensures
            views_of_rel_components(r@) == self@,
    {
        &self.0
    }

    /// The number of components in the normalized form.
    pub fn component_count(&self) -> (r: usize)
        ensures
            r == self@.len(),
    {
        self.0.len()
    }

    /// Resolves the path against a base. Each `Super` removes one component
    /// of the cursor; asking the root for its parent is a hard error, so the
    /// result can never climb above the root of the base. Nothing here is
    /// delegated to a platform path join.
    pub fn resolve(&self, base_path: &AbsolutePath) -> (r: Result<AbsolutePath, ValidationError>)
        requires
            self.wf(),
        ensures
            r is Ok <==> super_count(self@) <= base_path@.len(),
            r matches Ok(p) ==> p@ == base_path@.take(base_path@.len() - super_count(self@))
                + names_of(self@),
            r matches Err(e) ==> e == ValidationError::EscapesBase,
    {
        proof {
            lemma_resolve_normalized(base_path@, self@);
        }
        let mut cur = base_path.duplicate();
        proof {
            assert(self@.skip(0) =~= self@);
        }
        let mut i: usize = 0;
        while i < self.0.len()
            invariant
                0 <= i <= self.0@.len(),
                self@.len() == self.0@.len(),
                self.wf(),
                resolve_from(Option::Some(cur@), self@.skip(i as int)) == resolve_path(
                    base_path@,
                    self@,
                ),
            decreases self.0@.len() - i,
        {
            proof {
                assert(self@.skip(i as int).len() > 0);
                assert(self@.skip(i as int)[0] == self@[i as int]);
                assert(self@.skip(i as int).drop_first() =~= self@.skip(i + 1));
            }
            match &self.0[i] {
                RelativePathComponent::Super => {
                    if cur.depth() == 0 {
                        proof {
                            assert(apply_component(Option::Some(cur@), self@[i as int]) is None);
                            lemma_resolve_from_none(self@.skip(i as int).drop_first());
                            assert(resolve_path(base_path@, self@) is None);
                            lemma_resolve_normalized(base_path@, self@);
                        }
                        return Err(ValidationError::EscapesBase);
                    }
                    let ghost before = cur@;
                    cur.components.pop();
                    proof {
                        assert(cur@ =~= before.drop_last());
                    }
                },
                RelativePathComponent::Component(f) => {
                    let dup = f.duplicate();
                    cur.push(dup);
                },
            }
            i = i + 1;
        }
        proof {
            assert(self@.skip(self.0@.len() as int) =~= Seq::<PathComponentView>::empty());
        }
        Ok(cur)
    }
}

} // verus!
