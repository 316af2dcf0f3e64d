//! Dot-qualified access (`receiver.member`): reading the qualifier's root,
//! and the Java-interop getter fallback.

use vstd::prelude::*;

use crate::segments::{
    last_segment, last_segment_str, lemma_split_char_nonempty, slice_views, split_char, split_slices,
    split_str, starts_uppercase, str_starts_uppercase,
};
use crate::text::{
    char_upper_string, ends_with, find_char, first_where, is_char, lemma_first_where, seq_ends_with, slice_string, str_chars,
    unicode_upper,
};
use crate::infer_lines::without_nullable_mark;
use crate::types::{str_eq, Location};

verus! {

/// What a qualifier's root segment is, decided once, before any lookup.
pub enum QualifierRoot<'a> {
    /// `this.member`: current file, then its own hierarchy.
    This,
    /// `super.member`: hierarchy only.
    Super,
    /// `Foo.member` / `Outer.Inner.member`: every segment names a type.
    TypePath { root: &'a str, nested: Vec<&'a str> },
    /// `variable.field.member`: the root needs type inference first.
    ValuePath { root: &'a str, rest: Vec<&'a str> },
}

/// How [`parse_qualifier`] reads `q`: its segments are `q.split('.')`; the
/// root is the first one. `this` and `super` roots are keywords, an uppercase
/// root starts a type path, anything else a value path; the other segments
/// follow in order.
pub open spec fn parsed_as(q: Seq<char>, r: QualifierRoot) -> bool {
    let segs = split_char(q, '.');
    let root = segs[0];
    let rest = segs.skip(1);
    if root == "this"@ {
        r is This
    } else if root == "super"@ {
        r is Super
    } else if starts_uppercase(root) {
        r matches QualifierRoot::TypePath { root: r0, nested } && r0@ == root && slice_views(nested@)
            == rest
    } else {
        r matches QualifierRoot::ValuePath { root: r0, rest: r1 } && r0@ == root && slice_views(r1@)
            == rest
    }
}

/// Split a dot-qualified receiver expression into its root and the
/// segments that follow it (see [`parsed_as`]).
pub fn parse_qualifier<'a>(qualifier: &'a str) -> (r: QualifierRoot<'a>)
    ensures
        parsed_as(qualifier@, r),
{
    let mut segments = split_slices(qualifier, '.');
    proof {
        lemma_split_char_nonempty(qualifier@, '.');
    }
    let ghost all = segments@;
    let root = segments.remove(0);
    proof {
        assert(segments@ =~= all.skip(1));
        assert(slice_views(segments@) =~= split_char(qualifier@, '.').skip(1));
        assert(root@ == split_char(qualifier@, '.')[0]);
    }
    if str_eq(root, "this") {
        QualifierRoot::This
    } else if str_eq(root, "super") {
        QualifierRoot::Super
    } else if str_starts_uppercase(root) {
        QualifierRoot::TypePath { root, nested: segments }
    } else {
        QualifierRoot::ValuePath { root, rest: segments }
    }
}

/// Kotlin's Java-interop synthetic-property getter for `name`: `get`, then
/// the uppercase form of the first character, then the rest (`"get"` alone
/// for an empty name).
pub open spec fn getter_name(name: Seq<char>) -> Seq<char> {
    if name.len() == 0 {
        "get"@
    } else {
        "get"@ + unicode_upper(name[0]) + name.skip(1)
    }
}

/// Kotlin's Java-interop synthetic-property name for a getter-style call:
/// `fail` → `getFail`.
pub fn kotlin_getter_name(name: &str) -> (r: String)
    ensures
        r@ == getter_name(name@),
{
    let mut r = "get".to_owned();
    let n = name.unicode_len();
    if n == 0 {
        return r;
    }
    let first = char_upper_string(name.get_char(0));
    r.append(first.as_str());
    r.append(name.substring_char(1, n));
    r
}

/// Whether `uri` names a Java-declared symbol: a `.java` source file or a
/// `.class` entry of a JAR.
pub open spec fn java_declaring_uri(uri: Seq<char>) -> bool {
    seq_ends_with(uri, ".java"@) || seq_ends_with(uri, ".class"@)
}

/// Whether `uri` names a Java-declared symbol (see [`java_declaring_uri`]).
pub fn is_java_declaring_file(uri: &str) -> (r: bool)
    ensures
        r == java_declaring_uri(uri@),
{
    let u = str_chars(uri);
    ends_with(&u, &str_chars(".java")) || ends_with(&u, &str_chars(".class"))
}

/// Keep, in order, only the locations declared in a Java file.
pub fn retain_java_declared(locations: Vec<Location>) -> (out: Vec<Location>)
    ensures
        out@ == locations@.filter(|l: Location| java_declaring_uri(l.uri@)),
{
    let ghost keep = |l: Location| java_declaring_uri(l.uri@);
    let mut out: Vec<Location> = Vec::new();
    let mut i: usize = 0;
    while i < locations.len()
        invariant
            i <= locations@.len(),
            keep == (|l: Location| java_declaring_uri(l.uri@)),
            out@ == locations@.take(i as int).filter(keep),
        decreases locations.len() - i,
    {
        if is_java_declaring_file(locations[i].uri.as_str()) {
            out.push(locations[i].duplicate());
        }
        proof {
            reveal(Seq::filter);
            let t = locations@.take(i + 1int);
            assert(t.drop_last() =~= locations@.take(i as int));
            assert(t.last() == locations@[i as int]);
        }
        i = i + 1;
    }
    assert(locations@.take(locations@.len() as int) =~= locations@);
    out
}

// ─── The precedence ladder on one receiver ──────────────────────────────────

/// The four tiers a qualified lookup finds on one receiver.
pub struct QualifiedCandidates {
    /// Members declared directly inside the receiver type's own body.
    pub own_members: Vec<Location>,
    /// Members reached through its superclass and interface hierarchy.
    pub inherited_members: Vec<Location>,
    /// An in-scope extension declared on the receiver's own type.
    pub own_type_extension: Option<Location>,
    /// An in-scope extension declared on one of its ancestors.
    pub supertype_extension: Option<Location>,
}

/// The locations an optional location holds.
pub open spec fn opt_locations(o: Option<Location>) -> Seq<Location> {
    match o {
        Some(l) => seq![l],
        None => Seq::empty(),
    }
}

impl QualifiedCandidates {
    /// Whether no tier found anything.
    pub fn is_empty(&self) -> (r: bool)
        ensures
            r == (self.own_members@.len() == 0 && self.inherited_members@.len() == 0
                && self.own_type_extension is None && self.supertype_extension is None),
    {
        self.own_members.len() == 0 && self.inherited_members.len() == 0
            && self.own_type_extension.is_none() && self.supertype_extension.is_none()
    }

    /// Kotlin's member-over-extension precedence: own members, then
    /// inherited members, then the own-type extension, then the supertype
    /// extension.
    pub fn into_precedence_ordered(self) -> (out: Vec<Location>)
        ensures
            out@ == self.own_members@ + self.inherited_members@ + opt_locations(self.own_type_extension)
                + opt_locations(self.supertype_extension),
    {
        let mut ordered = self.own_members;
        let mut inherited = self.inherited_members;
        ordered.append(&mut inherited);
        match self.own_type_extension {
            Some(l) => ordered.push(l),
            None => {},
        }
        match self.supertype_extension {
            Some(l) => ordered.push(l),
            None => {},
        }
        ordered
    }
}

/// The member tiers after the Java-interop getter retry: when no real member
/// `name` was found (own or inherited), the tiers found for its getter
/// (`getter_own`, `getter_inherited`, see [`getter_name`]), each keeping only
/// the Java-declared getters (a Kotlin `fun getFail()` is never seen as
/// `.fail`); otherwise the real member tiers. The caller looks the getter up
/// only when the real tiers are empty.
pub fn member_tiers_with_getter_fallback(
    own: Vec<Location>,
    inherited: Vec<Location>,
    getter_own: Vec<Location>,
    getter_inherited: Vec<Location>,
) -> (r: (Vec<Location>, Vec<Location>))
    ensures
        if own@.len() == 0 && inherited@.len() == 0 {
            r.0@ == getter_own@.filter(|l: Location| java_declaring_uri(l.uri@)) && r.1@
                == getter_inherited@.filter(|l: Location| java_declaring_uri(l.uri@))
        } else {
            r.0@ == own@ && r.1@ == inherited@
        },
{
    if own.len() == 0 && inherited.len() == 0 {
        (retain_java_declared(getter_own), retain_java_declared(getter_inherited))
    } else {
        (own, inherited)
    }
}

/// The receiver a qualified lookup is anchored on, once the qualifier has
/// been walked to its leaf type.
pub struct ReceiverAnchor {
    /// The leaf type's declaration; `None` for a receiver with no indexed
    /// declaration (a built-in such as `String`), which can still carry
    /// extensions.
    pub declaration: Option<Location>,
    /// The leaf type's simple name.
    pub class_name: String,
}

/// The anchors of a type path `root.nested…` given the anchors `walked`
/// reached by walking every nested segment from each declaration of `root`:
/// those, when there are any; none when a nested segment could not be
/// walked from a declaration that was found (`Outer.Missing.member` must not
/// silently resolve against `Outer`); and when `root` names no declaration at
/// all, one declaration-less anchor on `root`, for its extensions.
pub fn type_path_anchors(walked: Vec<ReceiverAnchor>, nested_count: usize, root_found: bool, root: &str) -> (r:
    Vec<ReceiverAnchor>)
    ensures
        if walked@.len() > 0 {
            r@ == walked@
        } else if nested_count > 0 && root_found {
            r@.len() == 0
        } else {
            r@.len() == 1 && r@[0].declaration is None && r@[0].class_name@ == root@
        },
{
    if walked.len() > 0 {
        return walked;
    }
    if nested_count > 0 && root_found {
        return Vec::new();
    }
    let mut v: Vec<ReceiverAnchor> = Vec::new();
    v.push(ReceiverAnchor { declaration: None, class_name: root.to_owned() });
    v
}

/// The type a `TypePath` qualifier finally names: its last nested segment,
/// or its root when it has none (`Outer.Inner` names `Inner`).
pub fn type_path_leaf<'a>(root: &'a str, nested: &Vec<&'a str>) -> (r: &'a str)
    ensures
        r@ == (if nested@.len() > 0 {
            nested@.last()@
        } else {
            root@
        }),
{
    if nested.len() > 0 {
        nested[nested.len() - 1]
    } else {
        root
    }
}

// ─── Walking a value path ───────────────────────────────────────────────────

/// A value path `variable.field.member` being walked to its receiver: the
/// root's inferred type first, then each further segment, a nested type
/// (uppercase) or a field access whose own type is inferred in turn.
pub struct ValuePathWalk {
    /// The current type's declaration, once resolved.
    pub declaration: Option<Location>,
    /// The current type's simple name, kept even without a declaration (a
    /// built-in can still carry extensions).
    pub class_name: String,
    /// The segments still to walk from `next` on: the nested parts of the
    /// root's type, then the path's own further segments.
    pub segments: Vec<String>,
    pub next: usize,
}

/// What the walk of a value path needs next.
pub enum ValuePathAction {
    /// The first declaration that resolving the type named so, from the
    /// completing file, finds; answered through
    /// [`ValuePathWalk::resolved`].
    ResolveType(String),
    /// The first location of a symbol with the first name in the file with
    /// the second URI (a nested type of the current type); answered through
    /// [`ValuePathWalk::found_in_file`].
    FindInFile(String, String),
    /// The declared type of the field with the first name of the type
    /// declared in the file with the second URI; answered through
    /// [`ValuePathWalk::field_typed`].
    FieldType(String, String),
    /// The walk reached its leaf.
    Done(ReceiverAnchor),
    /// A segment follows a type with no declaration, or a field's type is
    /// unknown: the path has no receiver.
    Failed,
}

/// The part of a type before its first `.`, once a trailing `?` is dropped.
pub open spec fn outer_type_of(start: Seq<char>) -> Seq<char> {
    let t = without_nullable_mark(start);
    t.take(first_where(t, is_char('.')) as int)
}

/// The nested parts of a type (after its first `.`, split at `.`), once a
/// trailing `?` is dropped; none for an undotted type.
pub open spec fn nested_parts_of(start: Seq<char>) -> Seq<Seq<char>> {
    let t = without_nullable_mark(start);
    let d = first_where(t, is_char('.'));
    if d < t.len() {
        split_char(t.skip(d + 1int), '.')
    } else {
        Seq::empty()
    }
}

/// What the walk asks once its current type is settled: the anchor when no
/// segment is left; failure when one is left but the type has no
/// declaration; else the nested type (uppercase segment) in the
/// declaration's file, or the field's type.
pub open spec fn next_action(w: ValuePathWalk, a: ValuePathAction) -> bool {
    if w.next >= w.segments@.len() {
        a matches ValuePathAction::Done(anchor) && anchor.declaration == w.declaration && anchor.class_name@
            == w.class_name@
    } else {
        match w.declaration {
            None => a is Failed,
            Some(loc) => {
                let seg = w.segments@[w.next as int]@;
                if starts_uppercase(seg) {
                    a matches ValuePathAction::FindInFile(n, u) && n@ == seg && u@ == loc.uri@
                } else {
                    a matches ValuePathAction::FieldType(n, u) && n@ == seg && u@ == loc.uri@
                }
            },
        }
    }
}

fn copy_location(l: &Option<Location>) -> (r: Option<Location>)
    ensures
        r == *l,
{
    match l {
        Some(loc) => Some(loc.duplicate()),
        None => None,
    }
}

impl ValuePathWalk {
    /// Start walking `variable.rest…` from the variable's inferred type
    /// `start_type` (`Outer.Inner?`): the outer type is resolved first; its
    /// nested parts, then `rest`, are the segments to walk; the current name
    /// is the outer type's last segment.
    pub fn begin(start_type: &str, rest: &Vec<&str>) -> (r: (ValuePathWalk, ValuePathAction))
        ensures
            r.0.declaration is None,
            r.0.class_name@ == last_segment(outer_type_of(start_type@)),
            r.0.segments.deep_view() == nested_parts_of(start_type@) + rest@.map_values(|s: &str| s@),
            r.0.next == 0,
            r.1 matches ValuePathAction::ResolveType(t) && t@ == outer_type_of(start_type@),
    {
        let chars = str_chars(start_type);
        let n = chars.len();
        let len = if n > 0 && chars[n - 1] == '?' {
            n - 1
        } else {
            n
        };
        let t = slice_string(start_type, 0, len);
        let ghost tv = without_nullable_mark(start_type@);
        assert(t@ =~= tv);
        let tc = str_chars(t.as_str());
        let d = find_char(&tc, '.');
        proof {
            lemma_first_where(tc@, is_char('.'));
        }
        let outer = slice_string(t.as_str(), 0, d);
        assert(outer@ =~= outer_type_of(start_type@));
        let mut segments: Vec<String> = if d < len {
            let inner = slice_string(t.as_str(), d + 1, len);
            assert(inner@ =~= tv.skip(d + 1int));
            split_str(inner.as_str(), '.')
        } else {
            Vec::new()
        };
        assert(segments.deep_view() =~= nested_parts_of(start_type@));
        let ghost base = segments.deep_view();
        let mut i: usize = 0;
        while i < rest.len()
            invariant
                i <= rest@.len(),
                segments.deep_view() == base + rest@.map_values(|s: &str| s@).take(i as int),
            decreases rest.len() - i,
        {
            let ghost before = segments.deep_view();
            segments.push(rest[i].to_string());
            assert(rest@.map_values(|s: &str| s@).take(i + 1int) =~= rest@.map_values(|s: &str| s@).take(
                i as int,
            ).push(rest@[i as int]@));
            assert(segments.deep_view() =~= before.push(rest@[i as int]@));
            i = i + 1;
        }
        assert(rest@.map_values(|s: &str| s@).take(rest@.len() as int) =~= rest@.map_values(|s: &str| s@));
        let class_name = last_segment_str(outer.as_str()).to_string();
        let w = ValuePathWalk { declaration: None, class_name, segments, next: 0 };
        (w, ValuePathAction::ResolveType(outer))
    }

    /// What to ask next (see [`next_action`]).
    fn advance(&self) -> (a: ValuePathAction)
        requires
            self.next <= self.segments@.len(),
        ensures
            next_action(*self, a),
    {
        if self.next >= self.segments.len() {
            return ValuePathAction::Done(
                ReceiverAnchor { declaration: copy_location(&self.declaration), class_name: self.class_name.clone() },
            );
        }
        match &self.declaration {
            None => ValuePathAction::Failed,
            Some(loc) => {
                let seg = self.segments[self.next].clone();
                if str_starts_uppercase(seg.as_str()) {
                    ValuePathAction::FindInFile(seg, loc.uri.clone())
                } else {
                    ValuePathAction::FieldType(seg, loc.uri.clone())
                }
            },
        }
    }

    /// The answer to [`ValuePathAction::ResolveType`]: it becomes the current
    /// declaration; then the next action.
    pub fn resolved(&mut self, found: Option<Location>) -> (a: ValuePathAction)
        requires
            old(self).next <= old(self).segments@.len(),
        ensures
            final(self).declaration == found,
            final(self).class_name == old(self).class_name,
            final(self).segments == old(self).segments,
            final(self).next == old(self).next,
            next_action(*final(self), a),
    {
        self.declaration = found;
        self.advance()
    }

    /// The answer to [`ValuePathAction::FindInFile`] for the current
    /// segment: the segment becomes the current name; a location found in
    /// the file becomes the declaration and the walk goes on, else the
    /// segment is resolved as a type from the completing file.
    pub fn found_in_file(&mut self, found: Option<Location>) -> (a: ValuePathAction)
        requires
            old(self).next < old(self).segments@.len(),
        ensures
            final(self).class_name@ == old(self).segments@[old(self).next as int]@,
            final(self).segments == old(self).segments,
            final(self).next == old(self).next + 1,
            match found {
                Some(loc) => final(self).declaration == Some(loc) && next_action(*final(self), a),
                None => final(self).declaration == old(self).declaration && (a matches ValuePathAction::ResolveType(
                    t,
                ) && t@ == old(self).segments@[old(self).next as int]@),
            },
    {
        let n = self.segments.len();
        let seg = self.segments[self.next].clone();
        self.class_name = seg.clone();
        assert(self.next < n);
        self.next = self.next + 1;
        match found {
            Some(loc) => {
                self.declaration = Some(loc);
                self.advance()
            },
            None => ValuePathAction::ResolveType(seg),
        }
    }

    /// The answer to [`ValuePathAction::FieldType`] for the current segment:
    /// no type fails the walk; a type moves past the segment, names the
    /// current type by its last segment (without a trailing `?`) and is
    /// resolved from the completing file as written.
    pub fn field_typed(&mut self, field_type: Option<String>) -> (a: ValuePathAction)
        requires
            old(self).next < old(self).segments@.len(),
        ensures
            match field_type {
                None => a is Failed && *final(self) == *old(self),
                Some(t) => {
                    &&& final(self).class_name@ == last_segment(without_nullable_mark(t@))
                    &&& final(self).declaration == old(self).declaration
                    &&& final(self).segments == old(self).segments
                    &&& final(self).next == old(self).next + 1
                    &&& a matches ValuePathAction::ResolveType(r) && r@ == t@
                },
            },
    {
        let t = match field_type {
            None => return ValuePathAction::Failed,
            Some(t) => t,
        };
        let chars = str_chars(t.as_str());
        let n = chars.len();
        let len = if n > 0 && chars[n - 1] == '?' {
            n - 1
        } else {
            n
        };
        let stripped = slice_string(t.as_str(), 0, len);
        assert(stripped@ =~= without_nullable_mark(t@));
        self.class_name = last_segment_str(stripped.as_str()).to_string();
        let count = self.segments.len();
        assert(self.next < count);
        self.next = self.next + 1;
        ValuePathAction::ResolveType(t)
    }
}

} // verus!
