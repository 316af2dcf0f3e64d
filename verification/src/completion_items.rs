//! Completion items: collecting bare-name items (case and annotation gates,
//! match scoring, one item per name, sort keys) and the passes over item
//! lists (access filtering, label de-duplication, snippets, deprecation).

use vstd::prelude::*;

use crate::completion::{is_screaming_snake, match_score, match_score_spec, screaming_snake, vis_tag};
use crate::types::{str_eq, FileData, SymbolEntry, SymbolKind, Visibility};
use crate::segments::{starts_uppercase, str_starts_uppercase};
use crate::tie_break::string_in;
use crate::text::{
    char_is_lowercase, char_is_uppercase, seq_starts_with, starts_with, str_chars,
    unicode_lowercase,
};

verus! {

#[verifier::external_type_specification]
#[verifier::external_body]
pub struct ExJsonValue(serde_json::Value);

/// The kind of a completion item (the LSP completion item kinds).
#[derive(Clone, Copy, PartialEq, Eq, Structural, Debug)]
pub enum CompletionItemKind {
    Text,
    Method,
    Function,
    Constructor,
    Field,
    Variable,
    Class,
    Interface,
    Module,
    Property,
    Unit,
    Value,
    Enum,
    Keyword,
    Snippet,
    Color,
    File,
    Reference,
    Folder,
    EnumMember,
    Constant,
    Struct,
    Event,
    Operator,
    TypeParameter,
}

/// One completion item.
pub struct CompletionEntry {
    pub label: String,
    pub kind: CompletionItemKind,
    pub filter_text: Option<String>,
    pub sort_text: Option<String>,
    /// Text to insert instead of the label (`name($1)` for a function).
    pub insert_text: Option<String>,
    /// `insert_text` is a snippet with tab stops.
    pub snippet_format: bool,
    pub detail: Option<String>,
    /// Accepting the item should show the parameter hints.
    pub triggers_parameter_hints: bool,
    /// Tagged deprecated (rendered struck through).
    pub deprecated: bool,
    /// Opaque data handed back by the client when it resolves the item.
    pub data: Option<serde_json::Value>,
    /// The fully-qualified name that accepting the item imports, when the
    /// file does not import it yet.
    pub auto_import: Option<String>,
    /// A dimmed description shown beside the label (the package of a
    /// cross-package type), for clients that support it.
    pub label_description: Option<String>,
    /// The fully-qualified name the client hands back when it resolves a
    /// cross-package item that has no indexed symbol yet.
    pub resolve_fqn: Option<String>,
}

/// What `str::to_lowercase` gives for `s`.
pub uninterp spec fn unicode_lowercase_str(s: Seq<char>) -> Seq<char>;

/// Calls `str::to_lowercase`; its result is named [`unicode_lowercase_str`].
#[verifier::external_body]
pub(crate) fn lowercase_string(s: &str) -> (r: String)
    ensures
        r@ == unicode_lowercase_str(s@),
{
    s.to_lowercase()
}

/// The decimal digit for `d < 10`.
pub open spec fn digit_char(d: nat) -> char {
    ((d + 48) as u32) as char
}

/// The decimal notation of `n`, without leading zeros.
pub open spec fn decimal(n: nat) -> Seq<char>
    decreases n,
{
    if n < 10 {
        seq![digit_char(n)]
    } else {
        decimal(n / 10).push(digit_char(n % 10))
    }
}

pub(crate) fn digit_str(d: u8) -> (r: &'static str)
    requires
        d < 10,
    ensures
        r@ == seq![digit_char(d as nat)],
{
    proof {
        reveal_strlit("0");
        reveal_strlit("1");
        reveal_strlit("2");
        reveal_strlit("3");
        reveal_strlit("4");
        reveal_strlit("5");
        reveal_strlit("6");
        reveal_strlit("7");
        reveal_strlit("8");
        reveal_strlit("9");
    }
    match d {
        0 => "0",
        1 => "1",
        2 => "2",
        3 => "3",
        4 => "4",
        5 => "5",
        6 => "6",
        7 => "7",
        8 => "8",
        _ => "9",
    }
}

/// Append the decimal notation of `n` to `out`.
fn push_decimal(out: &mut String, n: u8)
    ensures
        final(out)@ == old(out)@ + decimal(n as nat),
    decreases n,
{
    if n >= 10 {
        push_decimal(out, n / 10);
    }
    out.append(digit_str(n % 10));
    proof {
        if n >= 10 {
            assert(decimal(n as nat) == decimal((n / 10) as nat).push(digit_char((n % 10) as nat)));
        }
    }
}

/// The item kinds that name callable or value members.
pub open spec fn member_kind(k: CompletionItemKind) -> bool {
    k == CompletionItemKind::Function || k == CompletionItemKind::Method || k
        == CompletionItemKind::Variable || k == CompletionItemKind::Field || k
        == CompletionItemKind::Property
}

pub open spec fn function_kind(k: CompletionItemKind) -> bool {
    k == CompletionItemKind::Function || k == CompletionItemKind::Method
}

/// `s` starts with a lowercase letter.
pub open spec fn starts_lowercase(s: Seq<char>) -> bool {
    s.len() > 0 && unicode_lowercase(s[0])
}

/// The prefix is typed long enough (in UTF-8 bytes) to trust only the better
/// matches of the local tiers.
pub const MIN_PREFIX_SCORE_REDUCTION: usize = 4;

/// `key` is the dedup key of an item labelled `label`: the label itself, or
/// the label, `:` and the fully-qualified name of a cross-package type.
pub open spec fn key_fits(key: Seq<char>, label: Seq<char>) -> bool {
    key == label || (key.len() > label.len() && key.take(label.len() as int) == label && key[label.len() as int] == ':')
}

/// Collects the completion items of the same file and package for a typed
/// prefix: each name at most once, and only names that pass the gates.
pub struct BareCompleter {
    pub items: Vec<CompletionEntry>,
    /// The names already added, in order.
    pub seen: Vec<String>,
    /// The prefix starts lowercase: uppercase names are skipped.
    pub lowercase_mode: bool,
    /// The prefix starts uppercase: lowercase names are skipped.
    pub uppercase_mode: bool,
    /// The prefix is CamelCase: SCREAMING_SNAKE names are skipped.
    pub camel_mode: bool,
    /// The worst match score still accepted.
    pub local_max_score: u8,
    pub snippets: bool,
    /// Only annotation names are wanted (the `@` context).
    pub annotation_only: bool,
}

/// The score under which `name` enters a completer with these gates, or
/// `None` when a gate rejects it.
pub open spec fn accepted_score(c: BareCompleter, name: Seq<char>, kind: CompletionItemKind, prefix: Seq<
    char,
>) -> Option<u8> {
    if (c.annotation_only && member_kind(kind)) || (c.lowercase_mode && starts_uppercase(name)) || (
    c.uppercase_mode && starts_lowercase(name)) || (c.camel_mode && screaming_snake(name)) {
        None
    } else {
        match match_score_spec(name, prefix) {
            Some(s) => if s <= c.local_max_score {
                Some(s)
            } else {
                None
            },
            None => None,
        }
    }
}

/// The item [`BareCompleter::add`] creates for an accepted name.
pub open spec fn entry_for(
    c: BareCompleter,
    e: CompletionEntry,
    name: Seq<char>,
    kind: CompletionItemKind,
    src_tier: u8,
    score: u8,
    detail: Seq<char>,
    data: Option<serde_json::Value>,
) -> bool {
    let is_fn = c.snippets && !c.annotation_only && function_kind(kind);
    &&& e.label@ == name
    &&& e.kind == kind
    &&& e.filter_text matches Some(f) && f@ == name
    &&& e.sort_text matches Some(t) && t@ == decimal(src_tier as nat) + decimal(score as nat)
        + unicode_lowercase_str(name)
    &&& (if is_fn {
        e.insert_text matches Some(t) && t@ == name + "($1)"@
    } else {
        e.insert_text is None
    })
    &&& e.snippet_format == is_fn
    &&& e.triggers_parameter_hints == is_fn
    &&& !e.deprecated
    &&& (if detail.len() == 0 {
        e.detail is None
    } else {
        e.detail matches Some(d) && d@ == detail
    })
    &&& e.data == data
    &&& e.auto_import is None
    &&& e.label_description is None
    &&& e.resolve_fqn is None
}

impl BareCompleter {
    /// Each item has its key in `seen`, no key twice: an item's key is its
    /// label, or, for a cross-package type name, `label:fully.qualified.Name`.
    pub open spec fn wf(&self) -> bool {
        &&& self.seen@.len() == self.items@.len()
        &&& forall|i: int| 0 <= i < self.items@.len() ==> key_fits(#[trigger] self.seen@[i]@, self.items@[i].label@)
        &&& self.seen.deep_view().no_duplicates()
    }

    /// An empty completer for `prefix`: lowercase mode when it starts
    /// lowercase, uppercase mode when it starts uppercase, CamelCase mode
    /// when it starts uppercase and has a lowercase letter, and only the best
    /// scores once it is [`MIN_PREFIX_SCORE_REDUCTION`] bytes long.
    pub fn new(prefix: &str, snippets: bool, annotation_only: bool) -> (c: BareCompleter)
        ensures
            c.wf(),
            c.items@.len() == 0,
            c.lowercase_mode == starts_lowercase(prefix@),
            c.uppercase_mode == starts_uppercase(prefix@),
            c.camel_mode == (starts_uppercase(prefix@) && exists|i: int|
                0 <= i < prefix@.len() && unicode_lowercase(#[trigger] prefix@[i])),
            c.local_max_score == (if prefix.len() >= MIN_PREFIX_SCORE_REDUCTION {
                1u8
            } else {
                2u8
            }),
            c.snippets == snippets,
            c.annotation_only == annotation_only,
    {
        let n = prefix.unicode_len();
        let lowercase_mode = n > 0 && char_is_lowercase(prefix.get_char(0));
        let uppercase_mode = n > 0 && char_is_uppercase(prefix.get_char(0));
        let mut any_lower = false;
        let mut i: usize = 0;
        while i < n
            invariant
                n == prefix@.len(),
                i <= n,
                any_lower == exists|j: int| 0 <= j < i && unicode_lowercase(#[trigger] prefix@[j]),
            decreases n - i,
        {
            if char_is_lowercase(prefix.get_char(i)) {
                any_lower = true;
            }
            i = i + 1;
        }
        let local_max_score: u8 = if prefix.len() >= MIN_PREFIX_SCORE_REDUCTION {
            1
        } else {
            2
        };
        let c = BareCompleter {
            items: Vec::new(),
            seen: Vec::new(),
            lowercase_mode,
            uppercase_mode,
            camel_mode: uppercase_mode && any_lower,
            local_max_score,
            snippets,
            annotation_only,
        };
        assert(c.seen.deep_view() =~= Seq::<Seq<char>>::empty());
        c
    }

    /// Offer `name` (a symbol of the same file or package, `src_tier` 0 or
    /// 1): it is added, once, with its sort key `tier, score, lowercased
    /// name`, unless a gate rejects it (see [`accepted_score`]) or it was
    /// added before.
    pub fn add(
        &mut self,
        name: &str,
        kind: CompletionItemKind,
        src_tier: u8,
        prefix: &str,
        detail: &str,
        item_data: Option<serde_json::Value>,
    )
        requires
            old(self).wf(),
        ensures
            final(self).wf(),
            final(self).lowercase_mode == old(self).lowercase_mode,
            final(self).uppercase_mode == old(self).uppercase_mode,
            final(self).camel_mode == old(self).camel_mode,
            final(self).local_max_score == old(self).local_max_score,
            final(self).snippets == old(self).snippets,
            final(self).annotation_only == old(self).annotation_only,
            final(self).seen.deep_view() == (if accepted_score(*old(self), name@, kind, prefix@) is Some
                && !old(self).seen.deep_view().contains(name@) {
                old(self).seen.deep_view().push(name@)
            } else {
                old(self).seen.deep_view()
            }),
            match accepted_score(*old(self), name@, kind, prefix@) {
                Some(score) => if old(self).seen.deep_view().contains(name@) {
                    final(self).items@ == old(self).items@
                } else {
                    &&& final(self).items@.len() == old(self).items@.len() + 1
                    &&& final(self).items@.drop_last() == old(self).items@
                    &&& entry_for(
                        *old(self),
                        final(self).items@.last(),
                        name@,
                        kind,
                        src_tier,
                        score,
                        detail@,
                        item_data,
                    )
                },
                None => final(self).items@ == old(self).items@,
            },
    {
        let is_member = match kind {
            CompletionItemKind::Function | CompletionItemKind::Method
            | CompletionItemKind::Variable | CompletionItemKind::Field
            | CompletionItemKind::Property => true,
            _ => false,
        };
        if self.annotation_only && is_member {
            return;
        }
        let n = name.unicode_len();
        if self.lowercase_mode && str_starts_uppercase(name) {
            return;
        }
        if self.uppercase_mode && n > 0 && char_is_lowercase(name.get_char(0)) {
            return;
        }
        if self.camel_mode && is_screaming_snake(name) {
            return;
        }
        let score = match match_score(name, prefix) {
            Some(s) => {
                if s <= self.local_max_score {
                    s
                } else {
                    return;
                }
            },
            None => return,
        };
        if string_in(name, &self.seen) {
            return;
        }
        let is_fn = self.snippets && !self.annotation_only && match kind {
            CompletionItemKind::Function | CompletionItemKind::Method => true,
            _ => false,
        };
        let mut sort_text = String::new();
        push_decimal(&mut sort_text, src_tier);
        push_decimal(&mut sort_text, score);
        sort_text.append(lowercase_string(name).as_str());
        let insert_text = if is_fn {
            let mut t = name.to_owned();
            t.append("($1)");
            Some(t)
        } else {
            None
        };
        let detail_text = if detail.unicode_len() == 0 {
            None
        } else {
            Some(detail.to_owned())
        };
        let entry = CompletionEntry {
            label: name.to_owned(),
            kind,
            filter_text: Some(name.to_owned()),
            sort_text: Some(sort_text),
            insert_text,
            snippet_format: is_fn,
            detail: detail_text,
            triggers_parameter_hints: is_fn,
            deprecated: false,
            data: item_data,
            auto_import: None,
            label_description: None,
            resolve_fqn: None,
        };
        let ghost seen_before = self.seen.deep_view();
        self.items.push(entry);
        self.seen.push(name.to_owned());
        proof {
            assert(self.seen.deep_view() =~= seen_before.push(name@));
            assert forall|i: int, j: int|
                0 <= i < j < self.seen.deep_view().len() implies self.seen.deep_view()[i]
                != self.seen.deep_view()[j] by {
                if j == seen_before.len() {
                    assert(seen_before.contains(seen_before[i]));
                }
            }
        }
    }
}

/// A completer never holds two items keyed by the same name: whatever is
/// offered to it, two items added under their own label (every tier but the
/// cross-package one, which keys each type by its fully-qualified name) have
/// different labels.
pub proof fn law_completer_labels_distinct(c: BareCompleter, i: int, j: int)
    requires
        c.wf(),
        0 <= i < j < c.items@.len(),
        c.seen@[i]@ == c.items@[i].label@,
        c.seen@[j]@ == c.items@[j].label@,
    ensures
        c.items@[i].label@ != c.items@[j].label@,
{
    assert(c.seen.deep_view()[i] == c.seen@[i]@);
    assert(c.seen.deep_view()[j] == c.seen@[j]@);
}

// ─── passes over item lists ──────────────────────────────────────────────────

/// An item is offered outside its declaring scope: its sort key carries
/// neither the private (`prv:`) nor the protected (`prt:`) tag.
pub open spec fn accessible(e: CompletionEntry) -> bool {
    match e.sort_text {
        Some(t) => !seq_starts_with(t@, "prv:"@) && !seq_starts_with(t@, "prt:"@),
        None => true,
    }
}

/// The accessible items of `items`, in order.
pub open spec fn accessible_items(items: Seq<CompletionEntry>) -> Seq<CompletionEntry> {
    items.filter(|e: CompletionEntry| accessible(e))
}

/// Drop the items tagged private or protected, keeping the others in order.
pub fn filter_inaccessible_completion_items(items: &mut Vec<CompletionEntry>)
    ensures
        final(items)@ == accessible_items(old(items)@),
{
    let mut src: Vec<CompletionEntry> = Vec::new();
    std::mem::swap(items, &mut src);
    let ghost all = src@;
    let ghost keep = |e: CompletionEntry| accessible(e);
    let mut k: usize = 0;
    let mut rest = src;
    let total = rest.len();
    while rest.len() > 0
        invariant
            keep == (|e: CompletionEntry| accessible(e)),
            k + rest@.len() == all.len(),
            all.len() == total,
            rest@ == all.skip(k as int),
            items@ == all.take(k as int).filter(keep),
        decreases rest@.len(),
    {
        let ghost before = rest@;
        let e = rest.remove(0);
        proof {
            assert(before[0] == all[k as int]);
            assert(rest@ =~= all.skip(k + 1int));
        }
        let ok = match &e.sort_text {
            Some(t) => {
                let chars = str_chars(t.as_str());
                !starts_with(&chars, &str_chars("prv:")) && !starts_with(&chars, &str_chars("prt:"))
            },
            None => true,
        };
        if ok {
            items.push(e);
        }
        proof {
            reveal(Seq::filter);
            let t = all.take(k + 1int);
            assert(t.drop_last() =~= all.take(k as int));
            assert(t.last() == all[k as int]);
        }
        k = k + 1;
    }
    assert(all.take(all.len() as int) =~= all);
}

/// The labels of `items`, in order.
pub open spec fn labels(items: Seq<CompletionEntry>) -> Seq<Seq<char>> {
    items.map_values(|e: CompletionEntry| e.label@)
}

/// `items` keeping only the first item of each label, in order.
pub open spec fn dedup_by_label(items: Seq<CompletionEntry>) -> Seq<CompletionEntry>
    decreases items.len(),
{
    if items.len() == 0 {
        items
    } else {
        let d = dedup_by_label(items.drop_last());
        if labels(d).contains(items.last().label@) {
            d
        } else {
            d.push(items.last())
        }
    }
}

/// Keep the first item of each label, in order.
pub fn dedup_completion_labels(items: &mut Vec<CompletionEntry>)
    ensures
        final(items)@ == dedup_by_label(old(items)@),
{
    let mut src: Vec<CompletionEntry> = Vec::new();
    std::mem::swap(items, &mut src);
    let ghost all = src@;
    let mut seen: Vec<String> = Vec::new();
    let mut k: usize = 0;
    let mut rest = src;
    let total = rest.len();
    while rest.len() > 0
        invariant
            k + rest@.len() == all.len(),
            all.len() == total,
            rest@ == all.skip(k as int),
            items@ == dedup_by_label(all.take(k as int)),
            seen.deep_view() == labels(items@),
        decreases rest@.len(),
    {
        let ghost before = rest@;
        let e = rest.remove(0);
        proof {
            assert(before[0] == all[k as int]);
            assert(rest@ =~= all.skip(k + 1int));
            let t = all.take(k + 1int);
            assert(t.drop_last() =~= all.take(k as int));
            assert(t.last() == all[k as int]);
        }
        if !string_in(e.label.as_str(), &seen) {
            let ghost items_before = items@;
            let ghost seen_before = seen.deep_view();
            seen.push(e.label.clone());
            items.push(e);
            proof {
                assert(seen.deep_view() =~= seen_before.push(items@.last().label@));
                assert(labels(items@) =~= labels(items_before).push(items@.last().label@));
            }
        }
        k = k + 1;
    }
    assert(all.take(all.len() as int) =~= all);
}

/// Without snippet support, drop every item's snippet insert text.
pub fn strip_completion_snippets(items: &mut Vec<CompletionEntry>, snippets: bool)
    ensures
        final(items)@.len() == old(items)@.len(),
        forall|i: int|
            0 <= i < old(items)@.len() ==> #[trigger] final(items)@[i] == (if snippets {
                old(items)@[i]
            } else {
                CompletionEntry { insert_text: None, snippet_format: false, ..old(items)@[i] }
            }),
{
    if snippets {
        return;
    }
    let mut src: Vec<CompletionEntry> = Vec::new();
    std::mem::swap(items, &mut src);
    let ghost all = src@;
    let mut k: usize = 0;
    let mut rest = src;
    let total = rest.len();
    while rest.len() > 0
        invariant
            k + rest@.len() == all.len(),
            all.len() == total,
            rest@ == all.skip(k as int),
            items@.len() == k,
            forall|i: int|
                0 <= i < k ==> #[trigger] items@[i] == (CompletionEntry {
                    insert_text: None,
                    snippet_format: false,
                    ..all[i]
                }),
        decreases rest@.len(),
    {
        let ghost before = rest@;
        let mut e = rest.remove(0);
        proof {
            assert(before[0] == all[k as int]);
            assert(rest@ =~= all.skip(k + 1int));
        }
        e.insert_text = None;
        e.snippet_format = false;
        items.push(e);
        k = k + 1;
    }
}

/// Tag an item deprecated and push it to the bottom of the list: its sort
/// key gets the prefix `99:` (the label stands in for a missing key). No
/// change when `deprecated` is false.
pub fn mark_deprecated(item: &mut CompletionEntry, deprecated: bool)
    ensures
        !deprecated ==> *final(item) == *old(item),
        deprecated ==> *final(item) == (CompletionEntry {
            deprecated: true,
            sort_text: final(item).sort_text,
            ..*old(item)
        }),
        deprecated ==> (final(item).sort_text matches Some(t) && t@ == "99:"@ + (match old(
            item,
        ).sort_text {
            Some(existing) => existing@,
            None => old(item).label@,
        })),
{
    if !deprecated {
        return;
    }
    item.deprecated = true;
    let mut t = "99:".to_owned();
    match &item.sort_text {
        Some(existing) => t.append(existing.as_str()),
        None => t.append(item.label.as_str()),
    }
    item.sort_text = Some(t);
}

/// De-duplicated item lists carry each label once.
pub proof fn law_dedup_labels_distinct(items: Seq<CompletionEntry>)
    ensures
        labels(dedup_by_label(items)).no_duplicates(),
    decreases items.len(),
{
    if items.len() > 0 {
        law_dedup_labels_distinct(items.drop_last());
        let d = dedup_by_label(items.drop_last());
        if !labels(d).contains(items.last().label@) {
            let l = labels(d.push(items.last()));
            assert(l =~= labels(d).push(items.last().label@));
            assert forall|i: int, j: int| 0 <= i < j < l.len() implies l[i] != l[j] by {
                if j == labels(d).len() {
                    assert(labels(d).contains(labels(d)[i]));
                }
            }
        }
    }
}

// ─── items for a file's own symbols ──────────────────────────────────────────

/// The completion kind shown for a symbol kind.
pub open spec fn completion_kind_of(kind: SymbolKind) -> CompletionItemKind {
    match kind {
        SymbolKind::Function | SymbolKind::Method => CompletionItemKind::Function,
        SymbolKind::Class => CompletionItemKind::Class,
        SymbolKind::Interface => CompletionItemKind::Interface,
        SymbolKind::Enum => CompletionItemKind::Enum,
        SymbolKind::EnumMember => CompletionItemKind::EnumMember,
        SymbolKind::Constant => CompletionItemKind::Constant,
        SymbolKind::Variable => CompletionItemKind::Variable,
        SymbolKind::Object | SymbolKind::Module => CompletionItemKind::Module,
        _ => CompletionItemKind::Value,
    }
}

/// The completion kind shown for a symbol kind (see [`completion_kind_of`]).
pub fn symbol_kind_to_completion(kind: SymbolKind) -> (r: CompletionItemKind)
    ensures
        r == completion_kind_of(kind),
{
    match kind {
        SymbolKind::Function | SymbolKind::Method => CompletionItemKind::Function,
        SymbolKind::Class => CompletionItemKind::Class,
        SymbolKind::Interface => CompletionItemKind::Interface,
        SymbolKind::Enum => CompletionItemKind::Enum,
        SymbolKind::EnumMember => CompletionItemKind::EnumMember,
        SymbolKind::Constant => CompletionItemKind::Constant,
        SymbolKind::Variable => CompletionItemKind::Variable,
        SymbolKind::Object | SymbolKind::Module => CompletionItemKind::Module,
        _ => CompletionItemKind::Value,
    }
}

/// Where items of a kind sort (lower first): functions, then fields and
/// constants, then other values, then types and modules.
pub open spec fn sort_rank(kind: Option<CompletionItemKind>) -> u8 {
    match kind {
        Some(CompletionItemKind::Function) | Some(CompletionItemKind::Method) => 0,
        Some(CompletionItemKind::Field) | Some(CompletionItemKind::Variable) | Some(
            CompletionItemKind::Constant,
        ) | Some(CompletionItemKind::EnumMember) => 1,
        Some(CompletionItemKind::Class) | Some(CompletionItemKind::Interface) | Some(
            CompletionItemKind::Enum,
        ) | Some(CompletionItemKind::Module) => 3,
        _ => 2,
    }
}

/// Sort rank for completion item kinds (see [`sort_rank`]).
pub fn kind_sort_rank(kind: Option<CompletionItemKind>) -> (r: u8)
    ensures
        r == sort_rank(kind),
{
    match kind {
        Some(CompletionItemKind::Function) | Some(CompletionItemKind::Method) => 0,
        Some(CompletionItemKind::Field) | Some(CompletionItemKind::Variable) | Some(
            CompletionItemKind::Constant,
        ) | Some(CompletionItemKind::EnumMember) => 1,
        Some(CompletionItemKind::Class) | Some(CompletionItemKind::Interface) | Some(
            CompletionItemKind::Enum,
        ) | Some(CompletionItemKind::Module) => 3,
        _ => 2,
    }
}

/// The plain item for `name`: with snippets on, a function inserts
/// `name($1)` as a snippet and shows the parameter hints.
pub open spec fn plain_item(
    e: CompletionEntry,
    name: Seq<char>,
    kind: CompletionItemKind,
    sort_text: Seq<char>,
    snippets: bool,
) -> bool {
    let is_fn = snippets && function_kind(kind);
    &&& e.label@ == name
    &&& e.kind == kind
    &&& e.filter_text is None
    &&& e.sort_text matches Some(t) && t@ == sort_text
    &&& (if is_fn {
        e.insert_text matches Some(t) && t@ == name + "($1)"@
    } else {
        e.insert_text is None
    })
    &&& e.snippet_format == is_fn
    &&& e.triggers_parameter_hints == is_fn
    &&& e.detail is None
    &&& !e.deprecated
    &&& e.data is None
    &&& e.auto_import is None
    &&& e.label_description is None
    &&& e.resolve_fqn is None
}

/// Build the completion item for a named symbol (see [`plain_item`]).
pub fn make_completion_item(name: &str, ck: CompletionItemKind, sort_text: String, snippets: bool) -> (r:
    CompletionEntry)
    ensures
        plain_item(r, name@, ck, sort_text@, snippets),
{
    let is_fn = snippets && match ck {
        CompletionItemKind::Function | CompletionItemKind::Method => true,
        _ => false,
    };
    let insert_text = if is_fn {
        let mut t = name.to_owned();
        t.append("($1)");
        Some(t)
    } else {
        None
    };
    CompletionEntry {
        label: name.to_owned(),
        kind: ck,
        filter_text: None,
        sort_text: Some(sort_text),
        insert_text,
        snippet_format: is_fn,
        detail: None,
        triggers_parameter_hints: is_fn,
        deprecated: false,
        data: None,
        auto_import: None,
        label_description: None,
        resolve_fqn: None,
    }
}

/// The sort key of a file's own symbol: its visibility tag, its kind's rank,
/// then its name.
pub open spec fn symbol_sort_key(s: SymbolEntry) -> Seq<char> {
    vis_tag_text(s.visibility) + decimal(sort_rank(Some(completion_kind_of(s.kind))) as nat)
        + s.name@
}

pub open spec fn vis_tag_text(v: Visibility) -> Seq<char> {
    match v {
        Visibility::Private => "prv:"@,
        Visibility::Protected => "prt:"@,
        _ => ""@,
    }
}

/// The names among `names` that get an item of their own after `items`: each
/// name no earlier item (nor an earlier such name) carries as its label.
pub open spec fn extra_names(items: Seq<CompletionEntry>, names: Seq<String>) -> Seq<Seq<char>>
    decreases names.len(),
{
    if names.len() == 0 {
        Seq::empty()
    } else {
        let front = extra_names(items, names.drop_last());
        let n = names.last()@;
        if labels(items).contains(n) || front.contains(n) {
            front
        } else {
            front.push(n)
        }
    }
}

/// The completion items for the symbols of an indexed file: one per symbol,
/// in order (see [`symbol_sort_key`]), then one field item (sort key `1`
/// and the name) per declared name that no item carries yet.
pub fn build_completion_items(file: &FileData) -> (items: Vec<CompletionEntry>)
    ensures
        items@.len() == file.symbols@.len() + extra_names(
            items@.take(file.symbols@.len() as int),
            file.declared_names@,
        ).len(),
        forall|i: int|
            0 <= i < file.symbols@.len() ==> plain_item(
                #[trigger] items@[i],
                file.symbols@[i].name@,
                completion_kind_of(file.symbols@[i].kind),
                symbol_sort_key(file.symbols@[i]),
                true,
            ),
        forall|j: int|
            0 <= j < items@.len() - file.symbols@.len() ==> ({
                let n = extra_names(items@.take(file.symbols@.len() as int), file.declared_names@)[j];
                plain_item(
                    #[trigger] items@[file.symbols@.len() + j],
                    n,
                    CompletionItemKind::Field,
                    "1"@ + n,
                    true,
                )
            }),
{
    let mut items: Vec<CompletionEntry> = Vec::new();
    let n = file.symbols.len();
    let mut i: usize = 0;
    while i < n
        invariant
            n == file.symbols@.len(),
            i <= n,
            items@.len() == i,
            forall|k: int|
                0 <= k < i ==> plain_item(
                    #[trigger] items@[k],
                    file.symbols@[k].name@,
                    completion_kind_of(file.symbols@[k].kind),
                    symbol_sort_key(file.symbols@[k]),
                    true,
                ),
        decreases n - i,
    {
        let symbol = &file.symbols[i];
        let ck = symbol_kind_to_completion(symbol.kind);
        let mut sort_txt = vis_tag(symbol.visibility).to_owned();
        push_decimal(&mut sort_txt, kind_sort_rank(Some(ck)));
        sort_txt.append(symbol.name.as_str());
        proof {
            reveal_strlit("prv:");
            reveal_strlit("prt:");
            reveal_strlit("");
        }
        items.push(make_completion_item(symbol.name.as_str(), ck, sort_txt, true));
        i = i + 1;
    }
    let ghost base = items@;
    let mut seen: Vec<String> = Vec::new();
    let mut k: usize = 0;
    let mut j: usize = 0;
    assert(base.take(n as int) =~= base);
    while j < file.declared_names.len()
        invariant
            n == file.symbols@.len(),
            base.len() == n,
            items@.take(n as int) == base,
            k == items@.len() - n,
            items@.len() >= n,
            k <= j,
            j <= file.declared_names@.len(),
            seen.deep_view() == extra_names(base, file.declared_names@.take(j as int)),
            k == seen@.len(),
            forall|m: int| 0 <= m < n ==> #[trigger] labels(items@)[m] == labels(base)[m],
            forall|m: int| 0 <= m < k ==> #[trigger] labels(items@)[n + m] == seen.deep_view()[m],
            forall|m: int|
                0 <= m < k ==> plain_item(
                    #[trigger] items@[n + m],
                    seen.deep_view()[m],
                    CompletionItemKind::Field,
                    "1"@ + seen.deep_view()[m],
                    true,
                ),
            forall|q: int|
                0 <= q < n ==> plain_item(
                    #[trigger] items@[q],
                    file.symbols@[q].name@,
                    completion_kind_of(file.symbols@[q].kind),
                    symbol_sort_key(file.symbols@[q]),
                    true,
                ),
        decreases file.declared_names.len() - j,
    {
        let name = &file.declared_names[j];
        proof {
            let t = file.declared_names@.take(j + 1int);
            assert(t.drop_last() =~= file.declared_names@.take(j as int));
            assert(t.last() == file.declared_names@[j as int]);
        }
        let in_items = label_among(&items, name.as_str());
        proof {
            assert forall|i: int| 0 <= i < labels(items@).len() implies #[trigger] labels(items@)[i]
                == (labels(base) + seen.deep_view())[i] by {
                if i >= n {
                    assert(labels(items@)[n + (i - n)] == seen.deep_view()[i - n]);
                }
            }
            assert(labels(items@) =~= labels(base) + seen.deep_view());
            let cond = labels(base).contains(name@) || seen.deep_view().contains(name@);
            if in_items {
                let m = choose|m: int| 0 <= m < labels(items@).len() && labels(items@)[m] == name@;
                if m < n {
                    assert(labels(base)[m] == name@);
                } else {
                    assert(seen.deep_view()[m - n] == name@);
                }
            }
            if labels(base).contains(name@) {
                let m = choose|m: int| 0 <= m < labels(base).len() && labels(base)[m] == name@;
                assert(labels(items@)[m] == name@);
            }
            if seen.deep_view().contains(name@) {
                let m = choose|m: int| 0 <= m < seen.deep_view().len() && seen.deep_view()[m] == name@;
                assert(labels(items@)[n + m] == name@);
            }
            assert(in_items == cond);
        }
        if !in_items {
            let mut sort_txt = "1".to_owned();
            sort_txt.append(name.as_str());
            proof {
                reveal_strlit("1");
            }
            let ghost seen_before = seen.deep_view();
            let ghost items_before = items@;
            items.push(make_completion_item(name.as_str(), CompletionItemKind::Field, sort_txt, true));
            seen.push(name.clone());
            proof {
                assert(seen.deep_view() =~= seen_before.push(name@));
                assert(items@.take(n as int) =~= items_before.take(n as int));
                assert forall|m: int| 0 <= m < n implies #[trigger] labels(items@)[m] == labels(base)[m] by {
                    assert(items@[m] == items_before[m]);
                }
                assert forall|m: int| 0 <= m < k + 1 implies #[trigger] labels(items@)[n + m] == seen.deep_view()[m] by {
                    if m < k {
                        assert(items@[n + m] == items_before[n + m]);
                    }
                }
                assert forall|m: int|
                    0 <= m < k + 1 implies plain_item(
                    #[trigger] items@[n + m],
                    seen.deep_view()[m],
                    CompletionItemKind::Field,
                    "1"@ + seen.deep_view()[m],
                    true,
                ) by {
                    if m < k {
                        assert(items@[n + m] == items_before[n + m]);
                    }
                }
                assert forall|q: int|
                    0 <= q < n implies plain_item(
                    #[trigger] items@[q],
                    file.symbols@[q].name@,
                    completion_kind_of(file.symbols@[q].kind),
                    symbol_sort_key(file.symbols@[q]),
                    true,
                ) by {
                    assert(items@[q] == items_before[q]);
                }
            }
            k = k + 1;
        }
        j = j + 1;
    }
    proof {
        assert(file.declared_names@.take(file.declared_names@.len() as int) =~= file.declared_names@);
    }
    items
}

/// Whether some item of `items` is labelled `name`.
fn label_among(items: &Vec<CompletionEntry>, name: &str) -> (r: bool)
    ensures
        r == labels(items@).contains(name@),
{
    let mut i: usize = 0;
    while i < items.len()
        invariant
            i <= items@.len(),
            forall|m: int| 0 <= m < i ==> #[trigger] labels(items@)[m] != name@,
        decreases items.len() - i,
    {
        if str_eq(items[i].label.as_str(), name) {
            assert(labels(items@)[i as int] == name@);
            return true;
        }
        i = i + 1;
    }
    false
}

/// The item offered for a member `s` of a nested type: a function or
/// method inserts `name($1)` as a snippet and shows the parameter hints; the
/// sort text is the kind's rank in two digits, `:` and the name; the detail
/// is the symbol's signature as the caller sees it (`detail_for_caller`,
/// generic parameters substituted, when the caller is known), none when the
/// symbol has no signature. The position data the client hands back is
/// attached by the caller.
pub open spec fn nested_item(e: CompletionEntry, s: SymbolEntry, detail_for_caller: Option<String>) -> bool {
    let kind = completion_kind_of(s.kind);
    let is_fn = function_kind(kind);
    &&& e.label@ == s.name@
    &&& e.kind == kind
    &&& e.filter_text is None
    &&& e.sort_text matches Some(t) && t@ == seq!['0', digit_char(sort_rank(Some(kind)) as nat), ':'] + s.name@
    &&& (if is_fn {
        e.insert_text matches Some(t) && t@ == s.name@ + "($1)"@
    } else {
        e.insert_text is None
    })
    &&& e.snippet_format == is_fn
    &&& e.triggers_parameter_hints == is_fn
    &&& (if s.detail@.len() == 0 {
        e.detail is None
    } else {
        e.detail matches Some(d) && d@ == match detail_for_caller {
            Some(c) => c@,
            None => s.detail@,
        }
    })
    &&& !e.deprecated
    &&& e.data is None
    &&& e.auto_import is None
    &&& e.label_description is None
    &&& e.resolve_fqn is None
}

/// The completion item for a member `symbol` of a nested type (see
/// [`nested_item`]).
pub fn completion_item_for_nested_symbol(symbol: &SymbolEntry, detail_for_caller: Option<String>) -> (r:
    CompletionEntry)
    ensures
        nested_item(r, *symbol, detail_for_caller),
{
    let kind = symbol_kind_to_completion(symbol.kind);
    let is_fn = match kind {
        CompletionItemKind::Function | CompletionItemKind::Method => true,
        _ => false,
    };
    let rank = kind_sort_rank(Some(kind));
    let mut sort_text = String::new();
    sort_text.append("0");
    sort_text.append(digit_str(rank));
    sort_text.append(":");
    sort_text.append(symbol.name.as_str());
    proof {
        reveal_strlit("0");
        reveal_strlit(":");
        assert(sort_text@ =~= seq!['0', digit_char(rank as nat), ':'] + symbol.name@);
    }
    let insert_text = if is_fn {
        let mut t = symbol.name.clone();
        t.append("($1)");
        Some(t)
    } else {
        None
    };
    let detail = if symbol.detail.as_str().unicode_len() == 0 {
        None
    } else {
        match detail_for_caller {
            Some(c) => Some(c),
            None => Some(symbol.detail.clone()),
        }
    };
    CompletionEntry {
        label: symbol.name.clone(),
        kind,
        filter_text: None,
        sort_text: Some(sort_text),
        insert_text,
        snippet_format: is_fn,
        detail,
        triggers_parameter_hints: is_fn,
        deprecated: false,
        data: None,
        auto_import: None,
        label_description: None,
        resolve_fqn: None,
    }
}

} // verus!
