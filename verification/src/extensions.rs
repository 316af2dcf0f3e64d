//! Completion of extension functions and properties declared on a receiver
//! type or its ancestors: which extensions are offered, what their items
//! look like, and when accepting one must add an import.

use vstd::prelude::*;

use crate::completion::{
    extension_symbol_fqn, fqn_package, imported_by_name, is_library_extension, library_extension,
    match_score, match_score_spec, package_of_fqn, star_imported, already_imported,
};
use crate::completion_items::{
    completion_kind_of, function_kind, mark_deprecated, symbol_kind_to_completion, BareCompleter,
    CompletionEntry, CompletionItemKind,
};
use crate::hierarchy::{views, walk_hierarchy, walk_spec, Node, SupertypeGraph};
use crate::tie_break::string_in;
use crate::types::{
    import_covers, language_of_path, str_eq, FileData, ImportEntry, Language, SymbolKind, Visibility,
};

verus! {

/// An extension symbol, as the index of extensions by receiver type lists it.
pub struct ExtensionEntry {
    /// URI of the file that declares the extension.
    pub file_uri: String,
    pub name: String,
    pub kind: SymbolKind,
    pub detail: String,
    pub visibility: Visibility,
    pub package: Option<String>,
    /// The declaring type, for a member extension (declared inside a type).
    pub container: Option<String>,
    /// The last value parameter is a function type (trailing-lambda syntax).
    pub trailing_lambda: bool,
    /// The declaration carries `@Deprecated`.
    pub deprecated: bool,
}

/// The parts of the file completing that decide whether an extension needs
/// an import.
pub struct ExtensionContext {
    pub from_uri: String,
    pub imports: Vec<ImportEntry>,
    /// The file's own package (empty for the default package).
    pub package_name: String,
}

/// The package of an extension (empty when unknown).
pub open spec fn entry_package(e: ExtensionEntry) -> Seq<char> {
    match e.package {
        Some(p) => p@,
        None => Seq::empty(),
    }
}

/// The fully-qualified name of an extension.
pub open spec fn entry_fqn(e: ExtensionEntry) -> Seq<char> {
    if entry_package(e).len() == 0 {
        e.name@
    } else {
        entry_package(e) + seq!['.'] + e.name@
    }
}

/// Completing `fqn` from the file of `ctx` needs an import: it is not in the
/// same file, not imported by name, its package is not star-imported, and
/// it is not the file's own package.
pub open spec fn needs_import_spec(ctx: ExtensionContext, fqn: Seq<char>, same_file: bool) -> bool {
    !same_file && !imported_by_name(ctx.imports@, fqn) && !star_imported(ctx.imports@, fqn_package(fqn))
        && fqn_package(fqn) != ctx.package_name@
}

/// `e` is declared in the file completing.
pub open spec fn in_same_file(ctx: ExtensionContext, e: ExtensionEntry) -> bool {
    e.file_uri@ == ctx.from_uri@
}

/// Whether `e` is offered at all: not a member extension (Kotlin has no
/// import syntax for one, and nothing shows its container is a receiver
/// here); accessible (private and protected ones only from their own file,
/// a library's internal ones never); and not a deprecated library symbol.
pub open spec fn offered(ctx: ExtensionContext, e: ExtensionEntry, is_library: bool) -> bool {
    &&& e.container is None
    &&& in_same_file(ctx, e) || !(e.visibility == Visibility::Private || e.visibility
        == Visibility::Protected || (is_library && e.visibility == Visibility::Internal))
    &&& !(e.deprecated && is_library)
}

/// The detail of an extension's items: its signature, else the package to
/// import it from when it needs an import.
pub open spec fn ext_detail(ctx: ExtensionContext, e: ExtensionEntry) -> Option<Seq<char>> {
    if e.detail@.len() > 0 {
        Some(e.detail@)
    } else if needs_import_spec(ctx, entry_fqn(e), in_same_file(ctx, e)) {
        Some(fqn_package(entry_fqn(e)))
    } else {
        None
    }
}

/// `e` matches the optional text `t`.
pub open spec fn opt_text_is(o: Option<String>, t: Option<Seq<char>>) -> bool {
    match (o, t) {
        (Some(a), Some(b)) => a@ == b,
        (None, None) => true,
        _ => false,
    }
}

/// The fields every item of an extension shares: its detail, its import,
/// and the deprecation mark (`99:` before the sort key).
pub open spec fn ext_common(item: CompletionEntry, ctx: ExtensionContext, e: ExtensionEntry, sort_key: Seq<char>) -> bool {
    let ni = needs_import_spec(ctx, entry_fqn(e), in_same_file(ctx, e));
    &&& item.filter_text is None
    &&& opt_text_is(item.detail, ext_detail(ctx, e))
    &&& opt_text_is(item.auto_import, if ni { Some(entry_fqn(e)) } else { None })
    &&& item.deprecated == e.deprecated
    &&& item.sort_text matches Some(t) && t@ == (if e.deprecated { "99:"@ + sort_key } else { sort_key })
    &&& item.data is None
    &&& item.label_description is None
    &&& item.resolve_fqn is None
}

/// The item for extension `e`: `name($1)` as a snippet for a callable when
/// snippets are on, sorted as `01:ext:name`.
pub open spec fn ext_item(item: CompletionEntry, ctx: ExtensionContext, e: ExtensionEntry, snippets: bool) -> bool {
    let kind = completion_kind_of(e.kind);
    let is_fn = snippets && function_kind(kind);
    &&& item.label@ == e.name@
    &&& item.kind == kind
    &&& (if is_fn {
        item.insert_text matches Some(t) && t@ == e.name@ + "($1)"@
    } else {
        item.insert_text is None
    })
    &&& item.snippet_format == is_fn
    &&& item.triggers_parameter_hints == is_fn
    &&& ext_common(item, ctx, e, "01:ext:"@ + e.name@)
}

/// The trailing-lambda item for extension `e`: labelled `name { }`,
/// inserting `name { $1 }` when snippets are on, sorted right after the
/// plain item.
pub open spec fn ext_lambda_item(item: CompletionEntry, ctx: ExtensionContext, e: ExtensionEntry, snippets: bool) -> bool {
    &&& item.label@ == e.name@ + " { }"@
    &&& item.kind == CompletionItemKind::Function
    &&& (if snippets {
        item.insert_text matches Some(t) && t@ == e.name@ + " { $1 }"@
    } else {
        item.insert_text is None
    })
    &&& item.snippet_format == snippets
    &&& !item.triggers_parameter_hints
    &&& ext_common(item, ctx, e, "01:ext:"@ + e.name@ + ":z"@)
}

impl ExtensionContext {
    /// Whether completing `fqn` needs an import (see [`needs_import_spec`]).
    pub fn needs_import(&self, fqn: &str, same_file: bool) -> (r: bool)
        ensures
            r == needs_import_spec(*self, fqn@, same_file),
    {
        if same_file {
            return false;
        }
        if already_imported(fqn, &self.imports) {
            return false;
        }
        let package_name = package_of_fqn(fqn);
        let mut i: usize = 0;
        while i < self.imports.len()
            invariant
                i <= self.imports@.len(),
                package_name@ == fqn_package(fqn@),
                forall|j: int|
                    0 <= j < i ==> !(self.imports@[j].is_star && #[trigger] self.imports@[j].full_path@
                        == package_name@),
            decreases self.imports.len() - i,
        {
            if self.imports[i].is_star && str_eq(self.imports[i].full_path.as_str(), package_name) {
                return false;
            }
            i = i + 1;
        }
        !str_eq(package_name, self.package_name.as_str())
    }

    /// Whether extension `e` is offered (see [`offered`]).
    pub fn offers(&self, e: &ExtensionEntry, is_library: bool) -> (r: bool)
        ensures
            r == offered(*self, *e, is_library),
    {
        if e.container.is_some() {
            return false;
        }
        let same = str_eq(e.file_uri.as_str(), self.from_uri.as_str());
        let hidden = match e.visibility {
            Visibility::Private | Visibility::Protected => true,
            Visibility::Internal => is_library,
            Visibility::Public => false,
        };
        if !same && hidden {
            return false;
        }
        !(e.deprecated && is_library)
    }

    fn item_parts(&self, e: &ExtensionEntry) -> (r: (Option<String>, Option<String>))
        ensures
            opt_text_is(r.0, ext_detail(*self, *e)),
            opt_text_is(
                r.1,
                if needs_import_spec(*self, entry_fqn(*e), in_same_file(*self, *e)) {
                    Some(entry_fqn(*e))
                } else {
                    None
                },
            ),
    {
        let package_name = match &e.package {
            Some(p) => p.as_str(),
            None => "",
        };
        proof {
            reveal_strlit("");
        }
        let fqn = extension_symbol_fqn(package_name, e.name.as_str());
        let same = str_eq(e.file_uri.as_str(), self.from_uri.as_str());
        let needs = self.needs_import(fqn.as_str(), same);
        let detail = if e.detail.as_str().unicode_len() > 0 {
            Some(e.detail.clone())
        } else if needs {
            Some(package_of_fqn(fqn.as_str()).to_owned())
        } else {
            None
        };
        let import = if needs {
            Some(fqn)
        } else {
            None
        };
        (detail, import)
    }

    /// The item for extension `e` (see [`ext_item`]).
    pub fn build_item_from_entry(&self, e: &ExtensionEntry, snippets: bool) -> (item: CompletionEntry)
        ensures
            ext_item(item, *self, *e, snippets),
    {
        let (detail, auto_import) = self.item_parts(e);
        let kind = symbol_kind_to_completion(e.kind);
        let is_fn = snippets && match kind {
            CompletionItemKind::Function | CompletionItemKind::Method => true,
            _ => false,
        };
        let insert_text = if is_fn {
            let mut t = e.name.clone();
            t.append("($1)");
            Some(t)
        } else {
            None
        };
        let mut sort_text = "01:ext:".to_owned();
        sort_text.append(e.name.as_str());
        proof {
            reveal_strlit("01:ext:");
        }
        let mut item = CompletionEntry {
            label: e.name.clone(),
            kind,
            filter_text: None,
            sort_text: Some(sort_text),
            insert_text,
            snippet_format: is_fn,
            detail,
            triggers_parameter_hints: is_fn,
            deprecated: false,
            data: None,
            auto_import,
            label_description: None,
            resolve_fqn: None,
        };
        mark_deprecated(&mut item, e.deprecated);
        item
    }

    /// The trailing-lambda item for extension `e` (see [`ext_lambda_item`]).
    pub fn build_lambda_item_from_entry(&self, e: &ExtensionEntry, snippets: bool) -> (item: CompletionEntry)
        ensures
            ext_lambda_item(item, *self, *e, snippets),
    {
        let (detail, auto_import) = self.item_parts(e);
        let mut label = e.name.clone();
        label.append(" { }");
        let insert_text = if snippets {
            let mut t = e.name.clone();
            t.append(" { $1 }");
            Some(t)
        } else {
            None
        };
        let mut sort_text = "01:ext:".to_owned();
        sort_text.append(e.name.as_str());
        sort_text.append(":z");
        proof {
            reveal_strlit("01:ext:");
        }
        let mut item = CompletionEntry {
            label,
            kind: CompletionItemKind::Function,
            filter_text: None,
            sort_text: Some(sort_text),
            insert_text,
            snippet_format: snippets,
            detail,
            triggers_parameter_hints: false,
            deprecated: false,
            data: None,
            auto_import,
            label_description: None,
            resolve_fqn: None,
        };
        mark_deprecated(&mut item, e.deprecated);
        item
    }
}

/// The key under which a trailing-lambda item of `name` is deduplicated.
pub open spec fn lambda_key(name: Seq<char>) -> Seq<char> {
    name + ":lam"@
}

/// Collects the extension items offered on one receiver: each extension
/// name once (overloads arriving from several archives merge), plus one
/// trailing-lambda item per name.
pub struct ExtensionCompletionBuilder {
    pub snippets: bool,
    /// The keys already used, in order.
    pub seen: Vec<String>,
    pub items: Vec<CompletionEntry>,
}

impl ExtensionCompletionBuilder {
    /// No key is used twice.
    pub open spec fn wf(&self) -> bool {
        self.seen.deep_view().no_duplicates()
    }

    /// An empty builder.
    pub fn new(snippets: bool) -> (b: ExtensionCompletionBuilder)
        ensures
            b.wf(),
            b.snippets == snippets,
            b.seen@.len() == 0,
            b.items@.len() == 0,
    {
        let b = ExtensionCompletionBuilder { snippets, seen: Vec::new(), items: Vec::new() };
        assert(b.seen.deep_view() =~= Seq::<Seq<char>>::empty());
        b
    }

    /// Offer extension `e` (from a library when `is_library`) to the file of
    /// `ctx`: when it is offered (see [`offered`]) and its name is new, its
    /// item is added, then its trailing-lambda item when it takes a trailing
    /// lambda and that key is new too; otherwise nothing changes.
    pub fn add_entry(&mut self, ctx: &ExtensionContext, e: &ExtensionEntry, is_library: bool)
        requires
            old(self).wf(),
        ensures
            final(self).wf(),
            final(self).snippets == old(self).snippets,
            ({
                let fresh = offered(*ctx, *e, is_library) && !old(self).seen.deep_view().contains(e.name@);
                let with_lambda = fresh && e.trailing_lambda && !old(self).seen.deep_view().contains(
                    lambda_key(e.name@),
                );
                let n = old(self).items@.len();
                if !fresh {
                    final(self).seen.deep_view() == old(self).seen.deep_view() && final(self).items@
                        == old(self).items@
                } else {
                    &&& final(self).seen.deep_view() == (if with_lambda {
                        old(self).seen.deep_view().push(e.name@).push(lambda_key(e.name@))
                    } else {
                        old(self).seen.deep_view().push(e.name@)
                    })
                    &&& final(self).items@.len() == n + (if with_lambda { 2int } else { 1int })
                    &&& final(self).items@.take(n as int) == old(self).items@
                    &&& ext_item(final(self).items@[n as int], *ctx, *e, old(self).snippets)
                    &&& with_lambda ==> ext_lambda_item(final(self).items@[n + 1int], *ctx, *e, old(self).snippets)
                }
            }),
    {
        if !ctx.offers(e, is_library) {
            return;
        }
        if string_in(e.name.as_str(), &self.seen) {
            return;
        }
        let ghost seen0 = self.seen.deep_view();
        let ghost items0 = self.items@;
        let item = ctx.build_item_from_entry(e, self.snippets);
        self.items.push(item);
        self.seen.push(e.name.clone());
        proof {
            assert(self.seen.deep_view() =~= seen0.push(e.name@));
            lemma_push_fresh_no_duplicates(seen0, e.name@);
            assert(self.items@.take(items0.len() as int) =~= items0);
            assert(self.items@[items0.len() as int] == item);
        }
        if e.trailing_lambda {
            let mut key = e.name.clone();
            key.append(":lam");
            proof {
                reveal_strlit(":lam");
                assert(key@ =~= lambda_key(e.name@));
                assert(lambda_key(e.name@).len() > e.name@.len());
            }
            let ghost seen1 = self.seen.deep_view();
            if !string_in(key.as_str(), &self.seen) {
                let ghost items1 = self.items@;
                let lam = ctx.build_lambda_item_from_entry(e, self.snippets);
                self.items.push(lam);
                self.seen.push(key);
                proof {
                    assert(!seen0.contains(lambda_key(e.name@))) by {
                        if seen0.contains(lambda_key(e.name@)) {
                            let k = choose|k: int| 0 <= k < seen0.len() && seen0[k] == lambda_key(e.name@);
                            assert(seen1[k] == seen0[k]);
                        }
                    }
                    assert(self.seen.deep_view() =~= seen1.push(lambda_key(e.name@)));
                    assert(self.seen.deep_view() =~= seen0.push(e.name@).push(lambda_key(e.name@)));
                    lemma_push_fresh_no_duplicates(seen1, lambda_key(e.name@));
                    assert(self.items@.take(items0.len() as int) =~= items0);
                    assert(self.items@[items0.len() as int] == items1[items0.len() as int]);
                }
            } else {
                proof {
                    assert(seen0.contains(lambda_key(e.name@))) by {
                        let k = choose|k: int| 0 <= k < seen1.len() && seen1[k] == lambda_key(e.name@);
                        if k == seen0.len() {
                            assert(seen1[k] == e.name@);
                        } else {
                            assert(seen0[k] == seen1[k]);
                        }
                    }
                }
            }
        } else {
        }
    }
}

pub(crate) proof fn lemma_push_fresh_no_duplicates(s: Seq<Seq<char>>, x: Seq<char>)
    requires
        s.no_duplicates(),
        !s.contains(x),
    ensures
        s.push(x).no_duplicates(),
{
    assert forall|i: int, j: int| 0 <= i < j < s.push(x).len() implies s.push(x)[i] != s.push(x)[j] by {
        if j == s.len() {
            assert(s.contains(s[i]));
        }
    }
}

impl BareCompleter {
    /// Offer an extension declared on the type enclosing the cursor (or one
    /// of its ancestors), as bare-word completion does for `this`: it is
    /// added, once, when it is declared in a Kotlin file, is offered (see
    /// [`offered`]), matches `prefix` and its name is new; otherwise nothing
    /// changes.
    pub fn add_this_extension(&mut self, ctx: &ExtensionContext, e: &ExtensionEntry, is_library: bool, prefix: &str)
        requires
            old(self).wf(),
        ensures
            final(self).wf(),
            final(self).lowercase_mode == old(self).lowercase_mode,
            final(self).uppercase_mode == old(self).uppercase_mode,
            final(self).camel_mode == old(self).camel_mode,
            final(self).local_max_score == old(self).local_max_score,
            final(self).snippets == old(self).snippets,
            final(self).annotation_only == old(self).annotation_only,
            ({
                let accepted = language_of_path(e.file_uri@) == Language::Kotlin && offered(*ctx, *e, is_library)
                    && match_score_spec(e.name@, prefix@) is Some && !old(self).seen.deep_view().contains(e.name@);
                if accepted {
                    &&& final(self).items@.len() == old(self).items@.len() + 1
                    &&& final(self).items@.drop_last() == old(self).items@
                    &&& ext_item(final(self).items@.last(), *ctx, *e, old(self).snippets)
                    &&& final(self).seen.deep_view() == old(self).seen.deep_view().push(e.name@)
                } else {
                    &&& final(self).items@ == old(self).items@
                    &&& final(self).seen.deep_view() == old(self).seen.deep_view()
                }
            }),
    {
        if Language::from_path(e.file_uri.as_str()) != Language::Kotlin {
            return;
        }
        if !ctx.offers(e, is_library) {
            return;
        }
        if match_score(e.name.as_str(), prefix).is_none() {
            return;
        }
        if string_in(e.name.as_str(), &self.seen) {
            return;
        }
        let item = ctx.build_item_from_entry(e, self.snippets);
        let ghost seen0 = self.seen.deep_view();
        self.items.push(item);
        self.seen.push(e.name.clone());
        proof {
            assert(self.seen.deep_view() =~= seen0.push(e.name@));
            lemma_push_fresh_no_duplicates(seen0, e.name@);
        }
    }
}

/// Extension `e` enters a completer that has already used the names
/// `seen`, completing `prefix` in the file of `ctx` (see
/// [`BareCompleter::add_this_extension`]); `library_uris` tell library
/// sources.
pub open spec fn this_extension_accepted(
    seen: Seq<Seq<char>>,
    ctx: ExtensionContext,
    e: ExtensionEntry,
    library_uris: Seq<Seq<char>>,
    prefix: Seq<char>,
) -> bool {
    &&& language_of_path(e.file_uri@) == Language::Kotlin
    &&& offered(ctx, e, library_extension(library_uris, e.file_uri@))
    &&& match_score_spec(e.name@, prefix) is Some
    &&& !seen.contains(e.name@)
}

/// The extensions accepted, in order, when `es[i..]` is offered in order to
/// a completer that has used the names `seen` (see
/// [`this_extension_accepted`]); each accepted one adds its name.
pub open spec fn this_extension_entries(
    seen: Seq<Seq<char>>,
    ctx: ExtensionContext,
    es: Seq<ExtensionEntry>,
    i: int,
    library_uris: Seq<Seq<char>>,
    prefix: Seq<char>,
) -> Seq<ExtensionEntry>
    decreases es.len() - i,
{
    if i < 0 || i >= es.len() {
        Seq::empty()
    } else if this_extension_accepted(seen, ctx, es[i], library_uris, prefix) {
        seq![es[i]] + this_extension_entries(seen.push(es[i].name@), ctx, es, i + 1, library_uris, prefix)
    } else {
        this_extension_entries(seen, ctx, es, i + 1, library_uris, prefix)
    }
}

/// The extensions [`BareCompleter::add_this_extensions`] accepts for a
/// completer that has used `seen` and only wants annotations when
/// `annotation_only`.
pub open spec fn this_extensions_accepted(
    seen: Seq<Seq<char>>,
    annotation_only: bool,
    ctx: ExtensionContext,
    es: Seq<ExtensionEntry>,
    library_uris: Seq<Seq<char>>,
    prefix: Seq<char>,
) -> Seq<ExtensionEntry> {
    if language_of_path(ctx.from_uri@) != Language::Kotlin || annotation_only {
        Seq::empty()
    } else {
        this_extension_entries(seen, ctx, es, 0, library_uris, prefix)
    }
}

impl BareCompleter {
    /// Bare-word completion's extensions on the implicit `this`: nothing for
    /// a file that is not Kotlin or when only annotation names are wanted;
    /// else each extension registered for the type enclosing the cursor or
    /// one of its ancestors (`entries`, ancestor after ancestor) is offered
    /// in turn (see [`BareCompleter::add_this_extension`]), as a library
    /// extension when its file is a library source (`library_uris`, see
    /// [`library_extension`]). The accepted extensions are exactly those of
    /// [`this_extensions_accepted`], in order: each adds its name and the
    /// item built from it.
    pub fn add_this_extensions(
        &mut self,
        ctx: &ExtensionContext,
        entries: &Vec<ExtensionEntry>,
        library_uris: &Vec<String>,
        prefix: &str,
    )
        requires
            old(self).wf(),
        ensures
            final(self).wf(),
            final(self).lowercase_mode == old(self).lowercase_mode,
            final(self).uppercase_mode == old(self).uppercase_mode,
            final(self).camel_mode == old(self).camel_mode,
            final(self).local_max_score == old(self).local_max_score,
            final(self).snippets == old(self).snippets,
            final(self).annotation_only == old(self).annotation_only,
            ({
                let acc = this_extensions_accepted(
                    old(self).seen.deep_view(),
                    old(self).annotation_only,
                    *ctx,
                    entries@,
                    library_uris.deep_view(),
                    prefix@,
                );
                let n = old(self).items@.len();
                &&& final(self).items@.len() == n + acc.len()
                &&& final(self).items@.take(n as int) == old(self).items@
                &&& forall|k: int|
                    0 <= k < acc.len() ==> ext_item(#[trigger] final(self).items@[n + k], *ctx, acc[k], old(self).snippets)
                &&& final(self).seen.deep_view() == old(self).seen.deep_view() + acc.map_values(
                    |e: ExtensionEntry| e.name@,
                )
            }),
    {
        let ghost n0 = self.items@.len();
        let ghost seen0 = self.seen.deep_view();
        if Language::from_path(ctx.from_uri.as_str()) != Language::Kotlin || self.annotation_only {
            proof {
                assert(self.items@.take(n0 as int) =~= self.items@);
                let acc = this_extensions_accepted(seen0, self.annotation_only, *ctx, entries@, library_uris.deep_view(), prefix@);
                assert(acc =~= Seq::<ExtensionEntry>::empty());
                assert(self.seen.deep_view() =~= seen0 + acc.map_values(|e: ExtensionEntry| e.name@));
            }
            return;
        }
        let ghost items0 = self.items@;
        let ghost mut done: Seq<ExtensionEntry> = Seq::empty();
        let mut i: usize = 0;
        assert(self.items@.take(n0 as int) =~= items0);
        assert(seen0 + done.map_values(|e: ExtensionEntry| e.name@) =~= seen0);
        while i < entries.len()
            invariant
                self.wf(),
                !self.annotation_only,
                self.lowercase_mode == old(self).lowercase_mode,
                self.uppercase_mode == old(self).uppercase_mode,
                self.camel_mode == old(self).camel_mode,
                self.local_max_score == old(self).local_max_score,
                self.snippets == old(self).snippets,
                self.annotation_only == old(self).annotation_only,
                items0 == old(self).items@,
                n0 == items0.len(),
                seen0 == old(self).seen.deep_view(),
                i <= entries@.len(),
                self.items@.len() == n0 + done.len(),
                self.items@.take(n0 as int) == items0,
                self.seen.deep_view() == seen0 + done.map_values(|e: ExtensionEntry| e.name@),
                done + this_extension_entries(self.seen.deep_view(), *ctx, entries@, i as int, library_uris.deep_view(), prefix@)
                    == this_extension_entries(seen0, *ctx, entries@, 0, library_uris.deep_view(), prefix@),
                forall|k: int|
                    0 <= k < done.len() ==> ext_item(#[trigger] self.items@[n0 + k], *ctx, done[k], old(self).snippets),
            decreases entries.len() - i,
        {
            let e = &entries[i];
            let is_library = is_library_extension(library_uris, e.file_uri.as_str());
            let ghost before_items = self.items@;
            let ghost before_names = self.seen.deep_view();
            let ghost before_done = done;
            self.add_this_extension(ctx, e, is_library, prefix);
            proof {
                assert(self.items@.take(n0 as int) =~= before_items.take(n0 as int));
                let acc = this_extension_accepted(before_names, *ctx, entries@[i as int], library_uris.deep_view(), prefix@);
                let rest = this_extension_entries(self.seen.deep_view(), *ctx, entries@, i + 1, library_uris.deep_view(), prefix@);
                if acc {
                    done = before_done.push(entries@[i as int]);
                    assert(done + rest =~= before_done + (seq![entries@[i as int]] + rest));
                    assert(done.map_values(|x: ExtensionEntry| x.name@) =~= before_done.map_values(
                        |x: ExtensionEntry| x.name@,
                    ).push(e.name@));
                    assert(self.seen.deep_view() =~= seen0 + done.map_values(|x: ExtensionEntry| x.name@));
                    assert forall|k: int| 0 <= k < done.len() implies ext_item(
                        #[trigger] self.items@[n0 + k],
                        *ctx,
                        done[k],
                        old(self).snippets,
                    ) by {
                        if k < before_done.len() {
                            assert(self.items@[n0 + k] == before_items[n0 + k]);
                        }
                    }
                } else {
                    assert(self.seen.deep_view() == before_names);
                }
            }
            i = i + 1;
        }
        proof {
            assert(done + Seq::<ExtensionEntry>::empty() =~= done);
        }
    }
}

/// `s` with each name kept at its first occurrence only.
pub open spec fn first_occurrences(s: Seq<Seq<char>>) -> Seq<Seq<char>>
    decreases s.len(),
{
    if s.len() == 0 {
        Seq::empty()
    } else {
        let r = first_occurrences(s.drop_last());
        if r.contains(s.last()) {
            r
        } else {
            r.push(s.last())
        }
    }
}

/// The types whose extensions bare-word completion offers on the implicit
/// `this` inside `class` (declared in `class_uri`): the class itself, then
/// the ancestors an eight-hop walk of `g` reaches, each name once.
pub open spec fn this_receiver_names(g: SupertypeGraph, class: Seq<char>, class_uri: Seq<char>) -> Seq<
    Seq<char>,
> {
    first_occurrences(seq![class] + walk_spec(g, (class, class_uri), 8).map_values(|n: Node| n.0))
}

/// The receiver types whose extensions are offered on `this` inside
/// `class` (see [`this_receiver_names`]).
pub fn this_receivers(g: &SupertypeGraph, class: &str, class_uri: &str) -> (out: Vec<String>)
    ensures
        out.deep_view() == this_receiver_names(*g, class@, class_uri@),
{
    let walk = walk_hierarchy(g, class, class_uri, 8);
    let ghost all = seq![class@] + views(walk@).map_values(|n: Node| n.0);
    let mut out: Vec<String> = Vec::new();
    let ghost empty = out.deep_view();
    out.push(class.to_owned());
    proof {
        assert(all.take(1).drop_last() =~= Seq::<Seq<char>>::empty());
        assert(first_occurrences(Seq::<Seq<char>>::empty()) =~= Seq::<Seq<char>>::empty());
        assert(out.deep_view() =~= empty.push(class@));
        assert(out.deep_view() =~= first_occurrences(all.take(1)));
    }
    let mut i: usize = 0;
    while i < walk.len()
        invariant
            i <= walk@.len(),
            all == seq![class@] + views(walk@).map_values(|n: Node| n.0),
            out.deep_view() == first_occurrences(all.take(i + 1)),
        decreases walk.len() - i,
    {
        let ghost before = out.deep_view();
        let name = &walk[i].name;
        if !string_in(name.as_str(), &out) {
            out.push(name.clone());
            proof {
                assert(out.deep_view() =~= before.push(name@));
            }
        }
        proof {
            assert(all.take(i + 2).drop_last() =~= all.take(i + 1));
            assert(all.take(i + 2).last() == all[i + 1]);
            assert(all[i + 1] == views(walk@)[i as int].0);
        }
        i = i + 1;
    }
    proof {
        assert(all.take(walk@.len() + 1int) =~= all);
    }
    out
}

proof fn lemma_first_occurrences(s: Seq<Seq<char>>)
    ensures
        first_occurrences(s).no_duplicates(),
        forall|x: Seq<char>| #[trigger] first_occurrences(s).contains(x) <==> s.contains(x),
        s.len() > 0 ==> first_occurrences(s).len() > 0 && first_occurrences(s)[0] == s[0],
    decreases s.len(),
{
    if s.len() > 0 {
        let d = s.drop_last();
        lemma_first_occurrences(d);
        let r = first_occurrences(d);
        assert forall|x: Seq<char>| s.contains(x) <==> (d.contains(x) || x == s.last()) by {
            if s.contains(x) {
                let k = choose|k: int| 0 <= k < s.len() && s[k] == x;
                if k < d.len() {
                    assert(d[k] == x);
                }
            }
            if d.contains(x) {
                let k = choose|k: int| 0 <= k < d.len() && d[k] == x;
                assert(s[k] == x);
            }
            if x == s.last() {
                assert(s[s.len() - 1] == x);
            }
        }
        if !r.contains(s.last()) {
            lemma_push_fresh_no_duplicates(r, s.last());
            assert forall|x: Seq<char>| #[trigger] r.push(s.last()).contains(x) <==> (r.contains(x) || x
                == s.last()) by {
                if r.push(s.last()).contains(x) {
                    let k = choose|k: int| 0 <= k < r.len() + 1 && r.push(s.last())[k] == x;
                    if k < r.len() {
                        assert(r[k] == x);
                    }
                }
                if r.contains(x) {
                    let k = choose|k: int| 0 <= k < r.len() && r[k] == x;
                    assert(r.push(s.last())[k] == x);
                }
                if x == s.last() {
                    assert(r.push(s.last())[r.len() as int] == x);
                }
            }
        }
        if d.len() == 0 {
            assert(!r.contains(s.last()));
        }
    }
}

/// The receivers offered on `this` inside a class are the class itself,
/// first, and every ancestor the eight-hop walk reaches, each name once.
pub proof fn law_this_receivers_are_the_class_and_its_ancestors_once(
    g: SupertypeGraph,
    class: Seq<char>,
    class_uri: Seq<char>,
)
    ensures
        this_receiver_names(g, class, class_uri).no_duplicates(),
        this_receiver_names(g, class, class_uri).len() > 0,
        this_receiver_names(g, class, class_uri)[0] == class,
        forall|a: Node|
            walk_spec(g, (class, class_uri), 8).contains(a) ==> #[trigger] this_receiver_names(
                g,
                class,
                class_uri,
            ).contains(a.0),
        forall|x: Seq<char>|
            #[trigger] this_receiver_names(g, class, class_uri).contains(x) ==> x == class || exists|a: Node|
                walk_spec(g, (class, class_uri), 8).contains(a) && a.0 == x,
{
    let w = walk_spec(g, (class, class_uri), 8);
    let names = w.map_values(|n: Node| n.0);
    let all = seq![class] + names;
    lemma_first_occurrences(all);
    assert(all[0] == class);
    assert forall|a: Node| w.contains(a) implies #[trigger] this_receiver_names(g, class, class_uri).contains(
        a.0,
    ) by {
        let k = choose|k: int| 0 <= k < w.len() && w[k] == a;
        assert(all[k + 1] == a.0);
        assert(all.contains(a.0));
    }
    assert forall|x: Seq<char>| #[trigger] this_receiver_names(g, class, class_uri).contains(x) implies x
        == class || exists|a: Node| w.contains(a) && a.0 == x by {
        assert(all.contains(x));
        let k = choose|k: int| 0 <= k < all.len() && all[k] == x;
        if k > 0 {
            assert(w[k - 1].0 == x);
            assert(w.contains(w[k - 1]));
        }
    }
}

/// One receiver type's entry in the index of extensions by receiver: the
/// type's simple name and the extensions declared on it.
pub struct ReceiverExtensions {
    pub receiver: String,
    pub entries: Vec<ExtensionEntry>,
}

/// The extensions `index[i..]` lists for the receiver `name`: those of its
/// first entry for `name`, none when it has none.
pub open spec fn extensions_on(index: Seq<ReceiverExtensions>, name: Seq<char>, i: int) -> Seq<
    ExtensionEntry,
>
    decreases index.len() - i,
{
    if i < 0 || i >= index.len() {
        Seq::empty()
    } else if index[i].receiver@ == name {
        index[i].entries@
    } else {
        extensions_on(index, name, i + 1)
    }
}

/// Where the extensions of the receiver `name` stand in `index`: the
/// position of its first entry, `None` when it has none.
pub fn receiver_position(index: &Vec<ReceiverExtensions>, name: &str) -> (r: Option<usize>)
    ensures
        match r {
            Some(j) => j < index@.len() && index@[j as int].receiver@ == name@ && extensions_on(
                index@,
                name@,
                0,
            ) == index@[j as int].entries@,
            None => extensions_on(index@, name@, 0) == Seq::<ExtensionEntry>::empty(),
        },
{
    let mut i: usize = 0;
    while i < index.len()
        invariant
            i <= index@.len(),
            extensions_on(index@, name@, 0) == extensions_on(index@, name@, i as int),
        decreases index.len() - i,
    {
        if str_eq(index[i].receiver.as_str(), name) {
            return Some(i);
        }
        i = i + 1;
    }
    None
}

/// The extensions bare-word completion accepts on `this` when the
/// receivers `receivers` are taken in turn (see
/// [`this_extensions_accepted`]), by a completer that has used the names
/// `seen`: each receiver's accepted extensions add their names before the
/// next receiver's are offered.
pub open spec fn this_extensions_over(
    seen: Seq<Seq<char>>,
    annotation_only: bool,
    ctx: ExtensionContext,
    receivers: Seq<Seq<char>>,
    index: Seq<ReceiverExtensions>,
    library_uris: Seq<Seq<char>>,
    prefix: Seq<char>,
) -> Seq<ExtensionEntry>
    decreases receivers.len(),
{
    if receivers.len() == 0 {
        Seq::empty()
    } else {
        let first = this_extensions_accepted(
            seen,
            annotation_only,
            ctx,
            extensions_on(index, receivers[0], 0),
            library_uris,
            prefix,
        );
        first + this_extensions_over(
            seen + first.map_values(|e: ExtensionEntry| e.name@),
            annotation_only,
            ctx,
            receivers.drop_first(),
            index,
            library_uris,
            prefix,
        )
    }
}

impl BareCompleter {
    /// Bare-word completion's extensions on the implicit `this` inside
    /// `class`, declared in `class_uri`: the extensions `index` lists for
    /// each receiver of [`this_receivers`] are offered in turn (see
    /// [`BareCompleter::add_this_extensions`]). The accepted extensions are
    /// exactly those of [`this_extensions_over`], in order: each adds its
    /// name and the item built from it.
    pub fn collect_this_extensions(
        &mut self,
        ctx: &ExtensionContext,
        g: &SupertypeGraph,
        class: &str,
        class_uri: &str,
        index: &Vec<ReceiverExtensions>,
        library_uris: &Vec<String>,
        prefix: &str,
    )
        requires
            old(self).wf(),
        ensures
            final(self).wf(),
            final(self).lowercase_mode == old(self).lowercase_mode,
            final(self).uppercase_mode == old(self).uppercase_mode,
            final(self).camel_mode == old(self).camel_mode,
            final(self).local_max_score == old(self).local_max_score,
            final(self).snippets == old(self).snippets,
            final(self).annotation_only == old(self).annotation_only,
            ({
                let acc = this_extensions_over(
                    old(self).seen.deep_view(),
                    old(self).annotation_only,
                    *ctx,
                    this_receiver_names(*g, class@, class_uri@),
                    index@,
                    library_uris.deep_view(),
                    prefix@,
                );
                let n = old(self).items@.len();
                &&& final(self).items@.len() == n + acc.len()
                &&& final(self).items@.take(n as int) == old(self).items@
                &&& forall|k: int|
                    0 <= k < acc.len() ==> ext_item(#[trigger] final(self).items@[n + k], *ctx, acc[k], old(self).snippets)
                &&& final(self).seen.deep_view() == old(self).seen.deep_view() + acc.map_values(
                    |e: ExtensionEntry| e.name@,
                )
            }),
    {
        let receivers = this_receivers(g, class, class_uri);
        let ghost rs = receivers.deep_view();
        let ghost items0 = self.items@;
        let ghost n0 = items0.len();
        let ghost seen0 = self.seen.deep_view();
        let ghost lib = library_uris.deep_view();
        let ghost mut done: Seq<ExtensionEntry> = Seq::empty();
        let mut i: usize = 0;
        proof {
            assert(self.items@.take(n0 as int) =~= items0);
            assert(seen0 + done.map_values(|e: ExtensionEntry| e.name@) =~= seen0);
            assert(rs.skip(0) =~= rs);
        }
        while i < receivers.len()
            invariant
                self.wf(),
                self.lowercase_mode == old(self).lowercase_mode,
                self.uppercase_mode == old(self).uppercase_mode,
                self.camel_mode == old(self).camel_mode,
                self.local_max_score == old(self).local_max_score,
                self.snippets == old(self).snippets,
                self.annotation_only == old(self).annotation_only,
                items0 == old(self).items@,
                n0 == items0.len(),
                seen0 == old(self).seen.deep_view(),
                rs == receivers.deep_view(),
                lib == library_uris.deep_view(),
                i <= rs.len(),
                self.items@.len() == n0 + done.len(),
                self.items@.take(n0 as int) == items0,
                self.seen.deep_view() == seen0 + done.map_values(|e: ExtensionEntry| e.name@),
                done + this_extensions_over(self.seen.deep_view(), self.annotation_only, *ctx, rs.skip(i as int), index@, lib, prefix@)
                    == this_extensions_over(seen0, self.annotation_only, *ctx, rs, index@, lib, prefix@),
                forall|k: int|
                    0 <= k < done.len() ==> ext_item(#[trigger] self.items@[n0 + k], *ctx, done[k], old(self).snippets),
            decreases receivers.len() - i,
        {
            let ghost before_items = self.items@;
            let ghost before_seen = self.seen.deep_view();
            let ghost before_done = done;
            let ghost entries = extensions_on(index@, rs[i as int], 0);
            let ghost acc = this_extensions_accepted(before_seen, self.annotation_only, *ctx, entries, lib, prefix@);
            match receiver_position(index, receivers[i].as_str()) {
                Some(j) => {
                    self.add_this_extensions(ctx, &index[j].entries, library_uris, prefix);
                },
                None => {
                    proof {
                        assert(entries =~= Seq::<ExtensionEntry>::empty());
                        assert(acc =~= Seq::<ExtensionEntry>::empty());
                        assert(self.items@.take(before_items.len() as int) =~= before_items);
                        assert(self.seen.deep_view() =~= before_seen + acc.map_values(|e: ExtensionEntry| e.name@));
                    }
                },
            }
            proof {
                let nb = before_items.len();
                assert(self.items@.len() == nb + acc.len());
                assert(self.items@.take(nb as int) == before_items);
                assert(self.seen.deep_view() == before_seen + acc.map_values(|e: ExtensionEntry| e.name@));
                assert forall|k: int| 0 <= k < acc.len() implies ext_item(
                    #[trigger] self.items@[nb + k],
                    *ctx,
                    acc[k],
                    old(self).snippets,
                ) by {}
                done = before_done + acc;
                let rest = rs.skip(i as int);
                assert(rest[0] == rs[i as int]);
                assert(rest.drop_first() =~= rs.skip(i + 1));
                assert(done.map_values(|e: ExtensionEntry| e.name@) =~= before_done.map_values(
                    |e: ExtensionEntry| e.name@,
                ) + acc.map_values(|e: ExtensionEntry| e.name@));
                assert(self.seen.deep_view() =~= seen0 + done.map_values(|e: ExtensionEntry| e.name@));
                assert(self.items@.take(n0 as int) =~= before_items.take(n0 as int));
                assert forall|k: int| 0 <= k < done.len() implies ext_item(
                    #[trigger] self.items@[n0 + k],
                    *ctx,
                    done[k],
                    old(self).snippets,
                ) by {
                    if k < before_done.len() {
                        assert(self.items@[n0 + k] == before_items[n0 + k]);
                    } else {
                        let k2 = k - before_done.len();
                        assert(self.items@[nb + k2] == self.items@[n0 + k]);
                        assert(done[k] == acc[k2]);
                    }
                }
                assert(done + this_extensions_over(self.seen.deep_view(), self.annotation_only, *ctx, rs.skip(i + 1), index@, lib, prefix@)
                    =~= before_done + this_extensions_over(before_seen, self.annotation_only, *ctx, rest, index@, lib, prefix@));
            }
            i = i + 1;
        }
        proof {
            assert(rs.skip(rs.len() as int) =~= Seq::<Seq<char>>::empty());
            assert(done + Seq::<ExtensionEntry>::empty() =~= done);
        }
    }
}


// ─── Extension scope ──────────────────────────────────────────────────────────

/// An import of the caller brings an extension named `name`, declared in the
/// package `pkg` (`None`: the default package), into scope: it covers the
/// package's `name` when the package is known; for the default package, it
/// binds `name` locally.
pub open spec fn import_brings(i: ImportEntry, pkg: Option<Seq<char>>, name: Seq<char>) -> bool {
    match pkg {
        Some(p) => import_covers(i.full_path@, i.local_name@, i.is_star, p, name),
        None => i.local_name@ == name,
    }
}

/// Whether an extension `name` declared in package `pkg` is in scope in the
/// caller's file `caller`: both in the default package (two files without a
/// `package` header are in the same package), or in the same package, or
/// brought in by one of the caller's imports. Never when the caller's file is
/// unknown: an unloaded file is not a confirmed default-package file.
pub open spec fn extension_in_scope(pkg: Option<Seq<char>>, name: Seq<char>, caller: Option<FileData>) -> bool {
    match caller {
        None => false,
        Some(fd) => {
            ||| pkg is None && fd.package is None
            ||| (pkg matches Some(p) && (fd.package matches Some(cp) && cp@ == p))
            ||| exists|i: int| 0 <= i < fd.imports@.len() && import_brings(#[trigger] fd.imports@[i], pkg, name)
        },
    }
}

/// The view of an optional package name.
pub open spec fn opt_string_view(o: Option<&String>) -> Option<Seq<char>> {
    match o {
        Some(s) => Some(s@),
        None => None,
    }
}

/// Whether an extension `entry_name` declared in `entry_package` is in
/// scope in the file `caller_file_data` (see [`extension_in_scope`]).
pub fn extension_is_in_scope(
    entry_package: Option<&String>,
    entry_name: &str,
    caller_file_data: Option<&FileData>,
) -> (r: bool)
    ensures
        r == extension_in_scope(
            opt_string_view(entry_package),
            entry_name@,
            match caller_file_data {
                Some(fd) => Some(*fd),
                None => None,
            },
        ),
{
    let fd = match caller_file_data {
        None => return false,
        Some(fd) => fd,
    };
    if entry_package.is_none() && fd.package.is_none() {
        return true;
    }
    match (entry_package, &fd.package) {
        (Some(p), Some(cp)) => {
            if str_eq(cp.as_str(), p.as_str()) {
                return true;
            }
        },
        _ => {},
    }
    let ghost pkg = opt_string_view(entry_package);
    let mut i: usize = 0;
    while i < fd.imports.len()
        invariant
            caller_file_data == Some(fd),
            i <= fd.imports@.len(),
            pkg == opt_string_view(entry_package),
            forall|k: int| 0 <= k < i ==> !import_brings(#[trigger] fd.imports@[k], pkg, entry_name@),
        decreases fd.imports.len() - i,
    {
        let imp = &fd.imports[i];
        let brings = match entry_package {
            Some(p) => imp.covers(p.as_str(), entry_name),
            None => str_eq(imp.local_name.as_str(), entry_name),
        };
        if brings {
            assert(import_brings(fd.imports@[i as int], pkg, entry_name@));
            return true;
        }
        i = i + 1;
    }
    false
}

} // verus!
