//! `Options=` of a `.mount` unit, as a structured, editable list.
//!
//! The builder shows a toggle menu instead of a free-text field, but the
//! option string on disk stays the authority: this module parses it into an
//! ordered list, lets the menu flip entries on and off, and composes it back.
//!
//! Two properties matter more than the menu itself:
//!
//! * **Nothing is dropped.** Only a subset of mount options is worth offering
//!   as toggles; every other option a unit already carries survives verbatim,
//!   in its original position, reachable through a free-text "other options"
//!   entry.
//! * **Order is preserved.** Mount options are last-wins, so reordering them
//!   can change what the kernel does. Toggling an option off and on again
//!   appends it; it never rewrites the list.
//!
//! Deliberately *not* offered are the `x-systemd.*` options, which only
//! `systemd-fstab-generator` reads: in a hand-written unit file they do
//! nothing. They still parse back into the free-text entry, so opening
//! someone else's unit and saving it keeps them.

use crate::fieldhelp;
use crate::parts;
use crate::text;
use vstd::prelude::*;

verus! {

broadcast use vstd::string::group_string_axioms;

// ---------------------------------------------------------------------------
// Options as text
// ---------------------------------------------------------------------------

/// One comma-separated element of an `Options=` string.
///
/// `value` distinguishes `vers=4.2` from a bare `ro`, and keeps `foo=`
/// distinct from `foo`, so composing a parsed list reproduces it.
#[derive(Debug, PartialEq, Eq)]
pub struct Opt {
    pub key: String,
    pub value: Option<String>,
}

/// The contents of an [`Opt`].
#[verifier::ext_equal]
pub struct OptView {
    pub key: Seq<char>,
    pub value: Option<Seq<char>>,
}

impl View for Opt {
    type V = OptView;

    open spec fn view(&self) -> OptView {
        OptView { key: self.key@, value: text::opt_text(self.value) }
    }
}

impl OptView {
    /// The option as it appears in the string.
    pub open spec fn text_of(self) -> Seq<char> {
        match self.value {
            Some(v) => self.key + "="@ + v,
            None => self.key,
        }
    }
}

/// The contents of a list of options.
pub open spec fn opt_views(v: Seq<Opt>) -> Seq<OptView> {
    Seq::new(v.len(), |i: int| v[i]@)
}

/// What one element of an `Options=` string says.
pub open spec fn option_of(e: Seq<char>) -> OptView {
    match parts::split_once_of(e, '=') {
        Some((k, v)) => OptView { key: text::trim_of(k), value: Some(text::trim_of(v)) },
        None => OptView { key: e, value: None },
    }
}

/// The options of the elements that are not blank, in order.
pub open spec fn options_of_pieces(p: Seq<Seq<char>>) -> Seq<OptView>
    decreases p.len(),
{
    if p.len() == 0 {
        seq![]
    } else if text::trim_of(p.last()).len() == 0 {
        options_of_pieces(p.drop_last())
    } else {
        options_of_pieces(p.drop_last()).push(option_of(text::trim_of(p.last())))
    }
}

/// The options of an `Options=` string.
pub open spec fn options_of(s: Seq<char>) -> Seq<OptView> {
    options_of_pieces(parts::split_of(s, ','))
}

/// The texts of some options.
pub open spec fn option_texts(opts: Seq<OptView>) -> Seq<Seq<char>> {
    Seq::new(opts.len(), |i: int| opts[i].text_of())
}

/// The `Options=` string of some options.
pub open spec fn compose_of(opts: Seq<OptView>) -> Seq<char> {
    parts::join_of(option_texts(opts), ","@)
}

impl Opt {
    /// An option without a value.
    pub fn flag(key: &str) -> (r: Opt)
        ensures
            r@ == (OptView { key: key@, value: None }),
    {
        Opt { key: key.to_owned(), value: None }
    }

    /// An option with a value.
    pub fn valued(key: &str, value: &str) -> (r: Opt)
        ensures
            r@ == (OptView { key: key@, value: Some(value@) }),
    {
        Opt { key: key.to_owned(), value: Some(value.to_owned()) }
    }

    /// The option as it appears in the string.
    pub fn text(&self) -> (r: String)
        ensures
            r@ == self@.text_of(),
    {
        match &self.value {
            Some(v) => text::cat3(self.key.as_str(), "=", v.as_str()),
            None => self.key.clone(),
        }
    }
}

impl Clone for Opt {
    fn clone(&self) -> (r: Opt)
        ensures
            r@ == self@,
    {
        Opt { key: self.key.clone(), value: text::clone_opt(&self.value) }
    }
}

/// Split an `Options=` string into its elements, in order.
///
/// Empty elements are dropped (`a,,b` is `a,b`) and surrounding whitespace is
/// trimmed, since neither survives a trip through `mount(8)` anyway.
pub fn parse_options(s: &str) -> (r: Vec<Opt>)
    ensures
        opt_views(r@) == options_of(s@),
{
    let pieces = parts::split(s, ',');
    let ghost all = text::texts(pieces@);
    let mut out: Vec<Opt> = Vec::new();
    let mut i: usize = 0;
    assert(all.take(0) =~= seq![]);
    assert(opt_views(out@) =~= seq![]);
    while i < pieces.len()
        invariant
            i <= pieces@.len(),
            all == text::texts(pieces@),
            opt_views(out@) == options_of_pieces(all.take(i as int)),
        decreases pieces@.len() - i,
    {
        let ghost before = opt_views(out@);
        proof {
            assert(all.take(i + 1).drop_last() =~= all.take(i as int));
            assert(all.take(i + 1).last() == pieces@[i as int]@);
        }
        let e = text::trim(pieces[i].as_str());
        if !e.is_empty() {
            let o = match parts::split_once(e, '=') {
                Some((k, v)) => Opt::valued(text::trim(k), text::trim(v)),
                None => Opt::flag(e),
            };
            out.push(o);
            assert(opt_views(out@) =~= before.push(o@));
        }
        i += 1;
    }
    assert(all.take(pieces@.len() as int) =~= all);
    out
}

/// Join options back into an `Options=` string.
pub fn compose(opts: &[Opt]) -> (r: String)
    ensures
        r@ == compose_of(opt_views(opts@)),
{
    let mut pieces: Vec<String> = Vec::new();
    let mut i: usize = 0;
    while i < opts.len()
        invariant
            i <= opts@.len(),
            pieces@.len() == i,
            forall|k: int| 0 <= k < i ==> (#[trigger] pieces@[k])@ == opts@[k]@.text_of(),
        decreases opts@.len() - i,
    {
        pieces.push(opts[i].text());
        i += 1;
    }
    assert(text::texts(pieces@) =~= option_texts(opt_views(opts@)));
    parts::join(&pieces, ",")
}

// ---------------------------------------------------------------------------
// What the menu offers
// ---------------------------------------------------------------------------

/// Which extra options a filesystem takes on top of the generic set.
#[derive(Debug, Clone, Copy, PartialEq, Eq, Structural)]
pub enum Family {
    /// Block devices and anything else without a dedicated option set.
    Generic,
    Nfs,
    Cifs,
    Bind,
}

/// The family implied by a `Type=` value.
pub open spec fn family_of(fstype: Seq<char>) -> Family {
    let t = text::lower_text(text::trim_of(fstype));
    if t == "nfs"@ || t == "nfs4"@ {
        Family::Nfs
    } else if t == "cifs"@ || t == "smb3"@ || t == "smb"@ {
        Family::Cifs
    } else if t == "none"@ {
        Family::Bind
    } else {
        Family::Generic
    }
}

/// The family implied by a `Type=` value.
///
/// Driven by the fstype rather than the builder's preset, because the preset
/// only seeds the field and the user is free to type something else
/// afterwards. `none` is how a bind mount spells its type.
pub fn family_for(fstype: &str) -> (r: Family)
    ensures
        r == family_of(fstype@),
{
    let t = text::to_lower(text::trim(fstype));
    let t = t.as_str();
    if text::same(t, "nfs") || text::same(t, "nfs4") {
        Family::Nfs
    } else if text::same(t, "cifs") || text::same(t, "smb3") || text::same(t, "smb") {
        Family::Cifs
    } else if text::same(t, "none") {
        Family::Bind
    } else {
        Family::Generic
    }
}

/// Whether an option carries a value.
#[derive(Debug, Clone, Copy, PartialEq, Eq, Structural)]
pub enum Kind {
    /// A bare word: `ro`, `noatime`.
    Flag,
    /// `key=value`: `vers=4.2`.
    Value,
}

/// One option the menu offers.
#[derive(Debug, Clone, Copy, PartialEq, Eq)]
pub struct Spec {
    pub key: &'static str,
    /// Key into the help document; the label, summary and example value all
    /// come from there rather than being restated here.
    pub help: &'static str,
    pub kind: Kind,
    /// Options sharing a group contradict each other, so the menu treats them
    /// as one setting with several positions rather than as independent
    /// checkboxes: turning one on turns its siblings off, in place.
    pub group: Option<&'static str>,
    /// `None` means every filesystem offers it.
    pub family: Option<Family>,
    /// The value is a path, so the file picker is the natural way to fill it.
    pub path: bool,
}

/// The contents of a [`Spec`].
#[verifier::ext_equal]
pub struct SpecView {
    pub key: Seq<char>,
    pub help: Seq<char>,
    pub kind: Kind,
    pub group: Option<Seq<char>>,
    pub family: Option<Family>,
    pub path: bool,
}

impl View for Spec {
    type V = SpecView;

    open spec fn view(&self) -> SpecView {
        SpecView {
            key: self.key@,
            help: self.help@,
            kind: self.kind,
            group: match self.group {
                Some(g) => Some(g@),
                None => None,
            },
            family: self.family,
            path: self.path,
        }
    }
}

/// The contents of a list of specs.
pub open spec fn spec_views(v: Seq<Spec>) -> Seq<SpecView> {
    Seq::new(v.len(), |i: int| v[i]@)
}

/// A bare word that every filesystem takes.
pub open spec fn flag_of(key: Seq<char>, help: Seq<char>) -> SpecView {
    SpecView { key, help, kind: Kind::Flag, group: None, family: None, path: false }
}

/// An option with a value that every filesystem takes.
pub open spec fn value_of_key(key: Seq<char>, help: Seq<char>) -> SpecView {
    SpecView { key, help, kind: Kind::Value, group: None, family: None, path: false }
}

/// An option as a member of an exclusive group.
pub open spec fn grouped(s: SpecView, group: Seq<char>) -> SpecView {
    SpecView { group: Some(group), ..s }
}

/// An option as one of a family.
pub open spec fn of_family(s: SpecView, family: Family) -> SpecView {
    SpecView { family: Some(family), ..s }
}

/// Options offered whatever the filesystem is. `ro`/`rw` and
/// `noatime`/`relatime` are exclusive pairs.
pub open spec fn generic_specs() -> Seq<SpecView> {
    seq![
        grouped(flag_of("ro"@, "mount.opt.ro"@), "access"@),
        grouped(flag_of("rw"@, "mount.opt.rw"@), "access"@),
        grouped(flag_of("noatime"@, "mount.opt.noatime"@), "atime"@),
        grouped(flag_of("relatime"@, "mount.opt.relatime"@), "atime"@),
        flag_of("nofail"@, "mount.opt.nofail"@),
        flag_of("noexec"@, "mount.opt.noexec"@),
        flag_of("nosuid"@, "mount.opt.nosuid"@),
        flag_of("nodev"@, "mount.opt.nodev"@),
        flag_of("defaults"@, "mount.opt.defaults"@),
        flag_of("_netdev"@, "mount.opt._netdev"@),
    ]
}

/// The options NFS adds.
pub open spec fn nfs_specs() -> Seq<SpecView> {
    seq![
        of_family(value_of_key("vers"@, "mount.opt.nfs.vers"@), Family::Nfs),
        of_family(grouped(flag_of("hard"@, "mount.opt.nfs.hard"@), "nfs-timeout"@), Family::Nfs),
        of_family(grouped(flag_of("soft"@, "mount.opt.nfs.soft"@), "nfs-timeout"@), Family::Nfs),
        of_family(value_of_key("timeo"@, "mount.opt.nfs.timeo"@), Family::Nfs),
        of_family(value_of_key("retrans"@, "mount.opt.nfs.retrans"@), Family::Nfs),
        of_family(value_of_key("rsize"@, "mount.opt.nfs.rsize"@), Family::Nfs),
        of_family(value_of_key("wsize"@, "mount.opt.nfs.wsize"@), Family::Nfs),
        of_family(grouped(flag_of("bg"@, "mount.opt.nfs.bg"@), "nfs-fork"@), Family::Nfs),
        of_family(grouped(flag_of("fg"@, "mount.opt.nfs.fg"@), "nfs-fork"@), Family::Nfs),
    ]
}

/// The options SMB/CIFS adds.
pub open spec fn cifs_specs() -> Seq<SpecView> {
    seq![
        of_family(
            SpecView {
                path: true,
                ..value_of_key("credentials"@, "mount.opt.cifs.credentials"@)
            },
            Family::Cifs,
        ),
        of_family(value_of_key("username"@, "mount.opt.cifs.username"@), Family::Cifs),
        of_family(value_of_key("uid"@, "mount.opt.cifs.uid"@), Family::Cifs),
        of_family(value_of_key("gid"@, "mount.opt.cifs.gid"@), Family::Cifs),
        of_family(value_of_key("vers"@, "mount.opt.cifs.vers"@), Family::Cifs),
        of_family(value_of_key("iocharset"@, "mount.opt.cifs.iocharset"@), Family::Cifs),
    ]
}

/// The options a bind mount adds.
pub open spec fn bind_specs() -> Seq<SpecView> {
    seq![
        of_family(grouped(flag_of("bind"@, "mount.opt.bind"@), "bind"@), Family::Bind),
        of_family(grouped(flag_of("rbind"@, "mount.opt.rbind"@), "bind"@), Family::Bind),
    ]
}

impl Family {
    /// The options this family adds to the generic ones.
    pub open spec fn extra_specs(self) -> Seq<SpecView> {
        match self {
            Family::Generic => seq![],
            Family::Nfs => nfs_specs(),
            Family::Cifs => cifs_specs(),
            Family::Bind => bind_specs(),
        }
    }

    pub open spec fn label_of(self) -> Seq<char> {
        match self {
            Family::Generic => "Generic"@,
            Family::Nfs => "NFS"@,
            Family::Cifs => "SMB/CIFS"@,
            Family::Bind => "Bind mount"@,
        }
    }

    /// The heading the family-specific block gets in the menu.
    pub fn label(self) -> (r: &'static str)
        ensures
            r@ == self.label_of(),
    {
        match self {
            Family::Generic => "Generic",
            Family::Nfs => "NFS",
            Family::Cifs => "SMB/CIFS",
            Family::Bind => "Bind mount",
        }
    }

    /// The options this family adds on top of [`generic`].
    pub fn extras(self) -> (r: Vec<Spec>)
        ensures
            spec_views(r@) == self.extra_specs(),
    {
        match self {
            Family::Generic => {
                let r: Vec<Spec> = Vec::new();
                assert(spec_views(r@) =~= seq![]);
                r
            },
            Family::Nfs => nfs(),
            Family::Cifs => cifs(),
            Family::Bind => bind(),
        }
    }
}

/// Every option offered for `family`: the generic set, then its extras.
pub open spec fn offered_of(family: Family) -> Seq<SpecView> {
    generic_specs() + family.extra_specs()
}

/// The first spec with that key.
pub open spec fn lookup(specs: Seq<SpecView>, key: Seq<char>) -> Option<SpecView>
    decreases specs.len(),
{
    if specs.len() == 0 {
        None
    } else if specs[0].key == key {
        Some(specs[0])
    } else {
        lookup(specs.skip(1), key)
    }
}

fn flag(key: &'static str, help: &'static str) -> (r: Spec)
    ensures
        r@ == flag_of(key@, help@),
{
    Spec { key, help, kind: Kind::Flag, group: None, family: None, path: false }
}

fn value(key: &'static str, help: &'static str) -> (r: Spec)
    ensures
        r@ == value_of_key(key@, help@),
{
    Spec { key, help, kind: Kind::Value, group: None, family: None, path: false }
}

fn in_group(s: Spec, group: &'static str) -> (r: Spec)
    ensures
        r@ == grouped(s@, group@),
{
    Spec { group: Some(group), ..s }
}

fn of(s: Spec, family: Family) -> (r: Spec)
    ensures
        r@ == of_family(s@, family),
{
    Spec { family: Some(family), ..s }
}

/// Options offered whatever the filesystem is.
pub fn generic() -> (r: Vec<Spec>)
    ensures
        spec_views(r@) == generic_specs(),
{
    let r = vec![
        in_group(flag("ro", "mount.opt.ro"), "access"),
        in_group(flag("rw", "mount.opt.rw"), "access"),
        in_group(flag("noatime", "mount.opt.noatime"), "atime"),
        in_group(flag("relatime", "mount.opt.relatime"), "atime"),
        flag("nofail", "mount.opt.nofail"),
        flag("noexec", "mount.opt.noexec"),
        flag("nosuid", "mount.opt.nosuid"),
        flag("nodev", "mount.opt.nodev"),
        flag("defaults", "mount.opt.defaults"),
        flag("_netdev", "mount.opt._netdev"),
    ];
    assert(spec_views(r@) =~= generic_specs());
    r
}

/// The options NFS adds.
pub fn nfs() -> (r: Vec<Spec>)
    ensures
        spec_views(r@) == nfs_specs(),
{
    let r = vec![
        of(value("vers", "mount.opt.nfs.vers"), Family::Nfs),
        of(in_group(flag("hard", "mount.opt.nfs.hard"), "nfs-timeout"), Family::Nfs),
        of(in_group(flag("soft", "mount.opt.nfs.soft"), "nfs-timeout"), Family::Nfs),
        of(value("timeo", "mount.opt.nfs.timeo"), Family::Nfs),
        of(value("retrans", "mount.opt.nfs.retrans"), Family::Nfs),
        of(value("rsize", "mount.opt.nfs.rsize"), Family::Nfs),
        of(value("wsize", "mount.opt.nfs.wsize"), Family::Nfs),
        of(in_group(flag("bg", "mount.opt.nfs.bg"), "nfs-fork"), Family::Nfs),
        of(in_group(flag("fg", "mount.opt.nfs.fg"), "nfs-fork"), Family::Nfs),
    ];
    assert(spec_views(r@) =~= nfs_specs());
    r
}

/// The options SMB/CIFS adds.
pub fn cifs() -> (r: Vec<Spec>)
    ensures
        spec_views(r@) == cifs_specs(),
{
    let r = vec![
        of(
            Spec { path: true, ..value("credentials", "mount.opt.cifs.credentials") },
            Family::Cifs,
        ),
        of(value("username", "mount.opt.cifs.username"), Family::Cifs),
        of(value("uid", "mount.opt.cifs.uid"), Family::Cifs),
        of(value("gid", "mount.opt.cifs.gid"), Family::Cifs),
        of(value("vers", "mount.opt.cifs.vers"), Family::Cifs),
        of(value("iocharset", "mount.opt.cifs.iocharset"), Family::Cifs),
    ];
    assert(spec_views(r@) =~= cifs_specs());
    r
}

/// The options a bind mount adds.
pub fn bind() -> (r: Vec<Spec>)
    ensures
        spec_views(r@) == bind_specs(),
{
    let r = vec![
        of(in_group(flag("bind", "mount.opt.bind"), "bind"), Family::Bind),
        of(in_group(flag("rbind", "mount.opt.rbind"), "bind"), Family::Bind),
    ];
    assert(spec_views(r@) =~= bind_specs());
    r
}

/// Every option offered for `family`: the generic set, then its extras.
pub fn offered(family: Family) -> (r: Vec<Spec>)
    ensures
        spec_views(r@) == offered_of(family),
{
    let mut out = generic();
    let mut more = family.extras();
    let ghost a = spec_views(out@);
    let ghost b = spec_views(more@);
    out.append(&mut more);
    assert(spec_views(out@) =~= a + b);
    out
}

/// The spec for `key` within `family`, if it is offered there.
///
/// `vers=` exists for both NFS and CIFS with different help text; the family
/// decides which one is meant, and they never both apply at once.
pub fn spec_for(family: Family, key: &str) -> (r: Option<Spec>)
    ensures
        match r {
            Some(s) => lookup(offered_of(family), key@) == Some(s@),
            None => lookup(offered_of(family), key@) is None,
        },
{
    let specs = offered(family);
    let ghost all = spec_views(specs@);
    let mut i: usize = 0;
    assert(all.skip(0) =~= all);
    while i < specs.len()
        invariant
            i <= specs@.len(),
            all == spec_views(specs@),
            all == offered_of(family),
            lookup(all, key@) == lookup(all.skip(i as int), key@),
        decreases specs@.len() - i,
    {
        if text::same(specs[i].key, key) {
            assert(all.skip(i as int)[0] == specs@[i as int]@);
            return Some(specs[i]);
        }
        assert(all.skip(i as int)[0] == specs@[i as int]@);
        assert(all.skip(i as int).skip(1) =~= all.skip(i + 1));
        i += 1;
    }
    None
}

/// The value a prompt for `spec` starts from, by a help document.
pub open spec fn suggestion_of(spec: SpecView, doc: Seq<fieldhelp::EntryView>) -> Seq<char> {
    match fieldhelp::entry_of(doc, spec.help) {
        None => seq![],
        Some(e) => match parts::split_once_of(e.example_of(), '=') {
            Some((k, v)) => if k == spec.key {
                v
            } else {
                seq![]
            },
            None => seq![],
        },
    }
}

/// The value the prompt should start from, taken from the help document's
/// deliberately realistic first example (`vers=4.2` for NFS, `vers=3.1.1` for
/// CIFS). Empty when there is nothing sensible to suggest.
pub fn suggested_value(spec: &Spec, doc: &[fieldhelp::Entry]) -> (r: String)
    ensures
        r@ == suggestion_of(spec@, fieldhelp::entry_views(doc@)),
{
    match fieldhelp::entry(doc, spec.help) {
        None => String::new(),
        Some(e) => {
            let ex = e.first_example();
            match parts::split_once(ex.as_str(), '=') {
                Some((k, v)) => if text::same(k, spec.key) {
                    v.to_owned()
                } else {
                    String::new()
                },
                None => String::new(),
            }
        },
    }
}

// ---------------------------------------------------------------------------
// The option set
// ---------------------------------------------------------------------------

/// An `Options=` string being edited, plus the filesystem that decides what
/// is on offer for it.
#[derive(Debug, PartialEq, Eq)]
pub struct OptionSet {
    pub opts: Vec<Opt>,
    pub family: Family,
}

/// The contents of an [`OptionSet`].
pub struct SetView {
    pub opts: Seq<OptView>,
    pub family: Family,
}

impl View for OptionSet {
    type V = SetView;

    open spec fn view(&self) -> SetView {
        SetView { opts: opt_views(self.opts@), family: self.family }
    }
}

/// The position of the first option with that key, or the length.
pub open spec fn key_index(opts: Seq<OptView>, key: Seq<char>) -> int
    decreases opts.len(),
{
    if opts.len() == 0 || opts[0].key == key {
        0
    } else {
        1 + key_index(opts.skip(1), key)
    }
}

/// Whether the menu can represent an option.
pub open spec fn is_known(family: Family, key: Seq<char>) -> bool {
    lookup(offered_of(family), key) is Some
}

/// Whether an option contradicts `spec` and is not `spec` itself.
pub open spec fn is_sibling(family: Family, spec: SpecView, key: Seq<char>) -> bool {
    &&& spec.group is Some
    &&& key != spec.key
    &&& lookup(offered_of(family), key) is Some
    &&& lookup(offered_of(family), key)->0.group == spec.group
}

/// The position of the first sibling of `spec`, or the length.
pub open spec fn sibling_index(opts: Seq<OptView>, family: Family, spec: SpecView) -> int
    decreases opts.len(),
{
    if opts.len() == 0 || is_sibling(family, spec, opts[0].key) {
        0
    } else {
        1 + sibling_index(opts.skip(1), family, spec)
    }
}

/// The position of the first option the menu cannot represent, or the length.
pub open spec fn unknown_index(opts: Seq<OptView>, family: Family) -> int
    decreases opts.len(),
{
    if opts.len() == 0 || !is_known(family, opts[0].key) {
        0
    } else {
        1 + unknown_index(opts.skip(1), family)
    }
}

/// The options without the siblings of `spec`.
pub open spec fn without_siblings(
    opts: Seq<OptView>,
    family: Family,
    spec: SpecView,
) -> Seq<OptView> {
    opts.filter(|o: OptView| !is_sibling(family, spec, o.key))
}

/// The options the menu can represent.
pub open spec fn known_of(opts: Seq<OptView>, family: Family) -> Seq<OptView> {
    opts.filter(|o: OptView| is_known(family, o.key))
}

/// The options the menu cannot represent.
pub open spec fn extras_of(opts: Seq<OptView>, family: Family) -> Seq<OptView> {
    opts.filter(|o: OptView| !is_known(family, o.key))
}

/// The options without those of one key.
pub open spec fn without_key(opts: Seq<OptView>, key: Seq<char>) -> Seq<OptView> {
    opts.filter(|o: OptView| o.key != key)
}

/// `o` at position `at`, or at the end where there is no such position.
pub open spec fn placed(opts: Seq<OptView>, at: int, o: OptView) -> Seq<OptView> {
    if at < opts.len() {
        opts.update(at, o)
    } else {
        opts.push(o)
    }
}

/// The options after `spec` was turned on: in its own place, in that of the
/// first sibling it displaces, or at the end; and without its siblings.
pub open spec fn enabled_of(
    opts: Seq<OptView>,
    family: Family,
    spec: SpecView,
    value: Option<Seq<char>>,
) -> Seq<OptView> {
    let new = OptView { key: spec.key, value };
    let at = if key_index(opts, spec.key) < opts.len() {
        key_index(opts, spec.key)
    } else {
        sibling_index(opts, family, spec)
    };
    without_siblings(placed(opts, at, new), family, spec)
}

/// The options with the extras replaced, at the place of the first of them.
pub open spec fn with_extras(opts: Seq<OptView>, family: Family, more: Seq<OptView>) -> Seq<
    OptView,
> {
    let at = unknown_index(opts, family);
    let kept = known_of(opts, family);
    kept.take(at) + more + kept.skip(at)
}

proof fn lemma_key_index(opts: Seq<OptView>, key: Seq<char>)
    ensures
        0 <= key_index(opts, key) <= opts.len(),
        key_index(opts, key) < opts.len() ==> opts[key_index(opts, key)].key == key,
        forall|i: int| 0 <= i < key_index(opts, key) ==> (#[trigger] opts[i]).key != key,
    decreases opts.len(),
{
    if opts.len() > 0 && opts[0].key != key {
        lemma_key_index(opts.skip(1), key);
        assert forall|i: int| 0 <= i < key_index(opts, key) implies (#[trigger] opts[i]).key
            != key by {
            if i > 0 {
                assert(opts[i] == opts.skip(1)[i - 1]);
            }
        }
    }
}

proof fn lemma_unknown_index(opts: Seq<OptView>, family: Family)
    ensures
        0 <= unknown_index(opts, family) <= opts.len(),
        unknown_index(opts, family) <= known_of(opts, family).len(),
        forall|i: int|
            0 <= i < unknown_index(opts, family) ==> is_known(family, (#[trigger] opts[i]).key)
                && known_of(opts, family)[i] == opts[i],
    decreases opts.len(),
{
    let keep = |o: OptView| is_known(family, o.key);
    if opts.len() > 0 && is_known(family, opts[0].key) {
        let rest = opts.skip(1);
        lemma_unknown_index(rest, family);
        let head = seq![opts[0]];
        assert(opts =~= head + rest);
        Seq::filter_distributes_over_add(head, rest, keep);
        reveal(Seq::filter);
        assert(head.drop_last() =~= seq![]);
        assert(head.filter(keep) =~= head);
        assert forall|i: int| 0 <= i < unknown_index(opts, family) implies is_known(
            family,
            (#[trigger] opts[i]).key,
        ) && known_of(opts, family)[i] == opts[i] by {
            if i > 0 {
                assert(opts[i] == rest[i - 1]);
            }
        }
    }
}

impl OptionSet {
    /// The set of an `Options=` string for a filesystem type.
    pub fn new(options: &str, fstype: &str) -> (r: OptionSet)
        ensures
            r@ == (SetView { opts: options_of(options@), family: family_of(fstype@) }),
    {
        OptionSet { opts: parse_options(options), family: family_for(fstype) }
    }

    pub fn family(&self) -> (r: Family)
        ensures
            r == self@.family,
    {
        self.family
    }

    /// The composed `Options=` string.
    pub fn text(&self) -> (r: String)
        ensures
            r@ == compose_of(self@.opts),
    {
        compose(&self.opts)
    }

    fn index_of(&self, key: &str) -> (r: Option<usize>)
        ensures
            match r {
                Some(i) => i == key_index(self@.opts, key@) && i < self.opts@.len(),
                None => key_index(self@.opts, key@) == self.opts@.len(),
            },
    {
        let ghost all = self@.opts;
        let mut i: usize = 0;
        assert(all.skip(0) =~= all);
        while i < self.opts.len()
            invariant
                i <= self.opts@.len(),
                all == self@.opts,
                key_index(all, key@) == i + key_index(all.skip(i as int), key@),
            decreases self.opts@.len() - i,
        {
            assert(all.skip(i as int)[0] == self.opts@[i as int]@);
            if text::same(self.opts[i].key.as_str(), key) {
                return Some(i);
            }
            assert(all.skip(i as int).skip(1) =~= all.skip(i + 1));
            i += 1;
        }
        None
    }

    /// Whether an option of that key is set.
    pub fn is_on(&self, key: &str) -> (r: bool)
        ensures
            r == (exists|i: int| 0 <= i < self@.opts.len() && (#[trigger] self@.opts[i]).key == key@),
    {
        proof {
            lemma_key_index(self@.opts, key@);
        }
        match self.index_of(key) {
            Some(i) => {
                assert(self@.opts[i as int].key == key@);
                true
            },
            None => false,
        }
    }

    /// The value currently set for `key`, if it is present and has one.
    pub fn value_of(&self, key: &str) -> (r: Option<&str>)
        ensures
            ({
                let i = key_index(self@.opts, key@);
                match r {
                    Some(v) => i < self@.opts.len() && self@.opts[i].value == Some(v@),
                    None => i < self@.opts.len() ==> self@.opts[i].value is None,
                }
            }),
    {
        match self.index_of(key) {
            Some(i) => match &self.opts[i].value {
                Some(v) => Some(v.as_str()),
                None => None,
            },
            None => None,
        }
    }

    /// Whether an option contradicts `spec` and is not `spec` itself.
    fn sibling(family: Family, spec: &Spec, key: &str) -> (r: bool)
        ensures
            r == is_sibling(family, spec@, key@),
    {
        match spec.group {
            None => false,
            Some(group) => if text::same(key, spec.key) {
                false
            } else {
                match spec_for(family, key) {
                    None => false,
                    Some(s) => match s.group {
                        Some(g) => text::same(g, group),
                        None => false,
                    },
                }
            },
        }
    }

    /// The first option that contradicts `spec` and is not `spec` itself.
    fn first_sibling(&self, spec: &Spec) -> (r: usize)
        ensures
            r == sibling_index(self@.opts, self@.family, spec@),
            r <= self.opts@.len(),
    {
        let ghost all = self@.opts;
        let mut i: usize = 0;
        assert(all.skip(0) =~= all);
        while i < self.opts.len()
            invariant
                i <= self.opts@.len(),
                all == self@.opts,
                sibling_index(all, self.family, spec@) == i + sibling_index(
                    all.skip(i as int),
                    self.family,
                    spec@,
                ),
            decreases self.opts@.len() - i,
        {
            assert(all.skip(i as int)[0] == self.opts@[i as int]@);
            if OptionSet::sibling(self.family, spec, self.opts[i].key.as_str()) {
                return i;
            }
            assert(all.skip(i as int).skip(1) =~= all.skip(i + 1));
            i += 1;
        }
        i
    }

    /// Take out the options that contradict `spec`.
    fn drop_siblings(&mut self, spec: &Spec)
        ensures
            final(self)@.family == old(self)@.family,
            final(self)@.opts == without_siblings(old(self)@.opts, old(self)@.family, spec@),
    {
        let family = self.family;
        let ghost all = self@.opts;
        let ghost keep = |o: OptView| !is_sibling(family, spec@, o.key);
        let mut out: Vec<Opt> = Vec::new();
        let mut i: usize = 0;
        proof {
            assert(all.take(0) =~= seq![]);
            reveal(Seq::filter);
            assert(opt_views(out@) =~= all.take(0).filter(keep));
        }
        while i < self.opts.len()
            invariant
                i <= self.opts@.len(),
                all == self@.opts,
                family == self.family,
                keep == (|o: OptView| !is_sibling(family, spec@, o.key)),
                opt_views(out@) == all.take(i as int).filter(keep),
            decreases self.opts@.len() - i,
        {
            let ghost before = opt_views(out@);
            proof {
                assert(all.take(i + 1).drop_last() =~= all.take(i as int));
                assert(all.take(i + 1).last() == self.opts@[i as int]@);
                reveal(Seq::filter);
            }
            if !OptionSet::sibling(family, spec, self.opts[i].key.as_str()) {
                let o = self.opts[i].clone();
                out.push(o);
                assert(opt_views(out@) =~= before.push(o@));
            }
            i += 1;
        }
        assert(all.take(all.len() as int) =~= all);
        self.opts = out;
    }

    /// Turn `spec` on, or update its value if it is already on.
    ///
    /// An option keeps whatever position it already had. A new option that
    /// displaces an exclusive sibling inherits *that* sibling's position, so
    /// switching `hard` to `soft` edits the list in place rather than moving
    /// the setting to the end where a later option could override it.
    pub fn enable(&mut self, spec: &Spec, value: Option<String>)
        ensures
            final(self)@.family == old(self)@.family,
            final(self)@.opts == enabled_of(
                old(self)@.opts,
                old(self)@.family,
                spec@,
                text::opt_text(value),
            ),
    {
        let new = Opt { key: spec.key.to_owned(), value };
        let ghost all = self@.opts;
        let at: usize = match self.index_of(spec.key) {
            Some(i) => i,
            None => self.first_sibling(spec),
        };
        if at < self.opts.len() {
            self.opts.set(at, new);
            assert(opt_views(self.opts@) =~= all.update(at as int, new@));
        } else {
            self.opts.push(new);
            assert(opt_views(self.opts@) =~= all.push(new@));
        }
        self.drop_siblings(spec);
    }

    /// Take out every option of that key.
    pub fn disable(&mut self, key: &str)
        ensures
            final(self)@.family == old(self)@.family,
            final(self)@.opts == without_key(old(self)@.opts, key@),
    {
        let ghost all = self@.opts;
        let ghost keep = |o: OptView| o.key != key@;
        let mut out: Vec<Opt> = Vec::new();
        let mut i: usize = 0;
        proof {
            assert(all.take(0) =~= seq![]);
            reveal(Seq::filter);
            assert(opt_views(out@) =~= all.take(0).filter(keep));
        }
        while i < self.opts.len()
            invariant
                i <= self.opts@.len(),
                all == self@.opts,
                keep == (|o: OptView| o.key != key@),
                opt_views(out@) == all.take(i as int).filter(keep),
            decreases self.opts@.len() - i,
        {
            let ghost before = opt_views(out@);
            proof {
                assert(all.take(i + 1).drop_last() =~= all.take(i as int));
                assert(all.take(i + 1).last() == self.opts@[i as int]@);
                reveal(Seq::filter);
            }
            if !text::same(self.opts[i].key.as_str(), key) {
                let o = self.opts[i].clone();
                out.push(o);
                assert(opt_views(out@) =~= before.push(o@));
            }
            i += 1;
        }
        assert(all.take(all.len() as int) =~= all);
        self.opts = out;
    }

    /// Flip a flag; for a value option, turn it on with `default` or off.
    pub fn toggle(&mut self, spec: &Spec, default: Option<String>)
        ensures
            final(self)@.family == old(self)@.family,
            final(self)@.opts == (if key_index(old(self)@.opts, spec@.key) < old(self)@.opts.len() {
                without_key(old(self)@.opts, spec@.key)
            } else {
                enabled_of(
                    old(self)@.opts,
                    old(self)@.family,
                    spec@,
                    text::opt_text(default),
                )
            }),
    {
        match self.index_of(spec.key) {
            Some(_) => self.disable(spec.key),
            None => self.enable(spec, default),
        }
    }

    /// Whether an option is one the menu can represent.
    fn known(&self, key: &str) -> (r: bool)
        ensures
            r == is_known(self@.family, key@),
    {
        match spec_for(self.family, key) {
            Some(_) => true,
            None => false,
        }
    }

    /// Everything the menu cannot represent, in original order. These are
    /// what the free-text entry holds, and the reason no option is ever lost.
    pub fn extras(&self) -> (r: Vec<Opt>)
        ensures
            opt_views(r@) == extras_of(self@.opts, self@.family),
    {
        let ghost all = self@.opts;
        let ghost family = self.family;
        let ghost keep = |o: OptView| !is_known(family, o.key);
        let mut out: Vec<Opt> = Vec::new();
        let mut i: usize = 0;
        proof {
            assert(all.take(0) =~= seq![]);
            reveal(Seq::filter);
            assert(opt_views(out@) =~= all.take(0).filter(keep));
        }
        while i < self.opts.len()
            invariant
                i <= self.opts@.len(),
                all == self@.opts,
                family == self.family,
                keep == (|o: OptView| !is_known(family, o.key)),
                opt_views(out@) == all.take(i as int).filter(keep),
            decreases self.opts@.len() - i,
        {
            let ghost before = opt_views(out@);
            proof {
                assert(all.take(i + 1).drop_last() =~= all.take(i as int));
                assert(all.take(i + 1).last() == self.opts@[i as int]@);
                reveal(Seq::filter);
            }
            if !self.known(self.opts[i].key.as_str()) {
                let o = self.opts[i].clone();
                out.push(o);
                assert(opt_views(out@) =~= before.push(o@));
            }
            i += 1;
        }
        assert(all.take(all.len() as int) =~= all);
        out
    }

    /// The extras as an editable comma-separated string.
    pub fn extras_text(&self) -> (r: String)
        ensures
            r@ == compose_of(extras_of(self@.opts, self@.family)),
    {
        let e = self.extras();
        compose(&e)
    }

    /// Replace the free-text extras, keeping them where they were.
    ///
    /// The replacement lands at the position of the first extra rather than
    /// at the end, so editing an unrelated option does not reorder a list
    /// where order decides which setting wins.
    pub fn set_extras(&mut self, text: &str)
        ensures
            final(self)@.family == old(self)@.family,
            final(self)@.opts == with_extras(
                old(self)@.opts,
                old(self)@.family,
                options_of(text@),
            ),
    {
        let ghost all = self@.opts;
        let ghost family = self.family;
        let ghost keep = |o: OptView| is_known(family, o.key);
        let mut at: usize = 0;
        let mut seen = false;
        let mut out: Vec<Opt> = Vec::new();
        let mut i: usize = 0;
        proof {
            assert(all.take(0) =~= seq![]);
            assert(all.skip(0) =~= all);
            reveal(Seq::filter);
            assert(opt_views(out@) =~= all.take(0).filter(keep));
        }
        while i < self.opts.len()
            invariant
                i <= self.opts@.len(),
                all == self@.opts,
                family == self.family,
                keep == (|o: OptView| is_known(family, o.key)),
                opt_views(out@) == all.take(i as int).filter(keep),
                seen ==> at == unknown_index(all, family) && at <= out@.len(),
                !seen ==> at == i && out@.len() == i && unknown_index(all, family) == i
                    + unknown_index(all.skip(i as int), family),
            decreases self.opts@.len() - i,
        {
            let ghost before = opt_views(out@);
            proof {
                assert(all.take(i + 1).drop_last() =~= all.take(i as int));
                assert(all.take(i + 1).last() == self.opts@[i as int]@);
                assert(all.skip(i as int)[0] == self.opts@[i as int]@);
                assert(all.skip(i as int).skip(1) =~= all.skip(i + 1));
                reveal(Seq::filter);
            }
            if self.known(self.opts[i].key.as_str()) {
                let o = self.opts[i].clone();
                out.push(o);
                assert(opt_views(out@) =~= before.push(o@));
                if !seen {
                    at = i + 1;
                }
            } else {
                seen = true;
            }
            i += 1;
        }
        assert(all.take(all.len() as int) =~= all);
        let ghost kept = opt_views(out@);
        let mut more = parse_options(text);
        let ghost new = opt_views(more@);
        let mut tail = out.split_off(at);
        proof {
            assert(opt_views(out@) =~= kept.take(at as int));
            assert(opt_views(tail@) =~= kept.skip(at as int));
        }
        out.append(&mut more);
        assert(opt_views(out@) =~= kept.take(at as int) + new);
        out.append(&mut tail);
        assert(opt_views(out@) =~= kept.take(at as int) + new + kept.skip(at as int));
        self.opts = out;
    }
}

impl Clone for OptionSet {
    fn clone(&self) -> (r: OptionSet)
        ensures
            r@ == self@,
    {
        let mut opts: Vec<Opt> = Vec::new();
        let mut i: usize = 0;
        while i < self.opts.len()
            invariant
                i <= self.opts@.len(),
                opts@.len() == i,
                forall|k: int| 0 <= k < i ==> (#[trigger] opts@[k])@ == self.opts@[k]@,
            decreases self.opts@.len() - i,
        {
            opts.push(self.opts[i].clone());
            i += 1;
        }
        assert(opt_views(opts@) =~= opt_views(self.opts@));
        OptionSet { opts, family: self.family }
    }
}

// ---------------------------------------------------------------------------
// Laws
// ---------------------------------------------------------------------------

/// Whether an option can stand in an `Options=` string as it is: trimmed,
/// without a comma, and with a key that holds no equals sign.
pub open spec fn is_clean(o: OptView) -> bool {
    &&& !o.key.contains(',')
    &&& !o.key.contains('=')
    &&& text::trim_of(o.key) == o.key
    &&& match o.value {
        Some(v) => !v.contains(',') && text::trim_of(v) == v,
        None => o.key.len() > 0,
    }
}

/// The text of a clean option is not blank, holds no comma and reads back as
/// the option.
proof fn lemma_option_text(o: OptView)
    requires
        is_clean(o),
    ensures
        !o.text_of().contains(','),
        text::trim_of(o.text_of()) == o.text_of(),
        o.text_of().len() > 0,
        option_of(o.text_of()) == o,
{
    let t = o.text_of();
    reveal_strlit("=");
    text::lemma_trim_trim(o.key);
    match o.value {
        Some(v) => {
            text::lemma_trim_trim(v);
            let k = o.key.len() as int;
            assert(t.len() == k + 1 + v.len());
            assert(t[k] == '=');
            assert forall|i: int| 0 <= i < t.len() implies #[trigger] t[i] != ',' by {
                if i < k {
                    assert(o.key.contains(t[i]));
                } else if i > k {
                    assert(t[i] == v[i - k - 1]);
                    assert(v.contains(t[i]));
                }
            }
            assert forall|i: int| 0 <= i < k implies #[trigger] t[i] != '=' by {
                assert(o.key.contains(t[i]));
            }
            text::lemma_first_index_at(t, '=', k);
            assert(t.take(k) =~= o.key);
            assert(t.skip(k + 1) =~= v);
            if k > 0 {
                assert(t[0] == o.key[0]);
            }
            if v.len() > 0 {
                assert(t.last() == v.last());
            }
            text::lemma_trim_tight(t);
        },
        None => {
            assert forall|i: int| 0 <= i < t.len() implies #[trigger] t[i] != '=' by {
                assert(o.key.contains(t[i]));
            }
            text::lemma_first_index_at(t, '=', t.len() as int);
        },
    }
}

proof fn lemma_pieces(opts: Seq<OptView>)
    requires
        forall|i: int| 0 <= i < opts.len() ==> is_clean(#[trigger] opts[i]),
    ensures
        options_of_pieces(option_texts(opts)) == opts,
    decreases opts.len(),
{
    let t = option_texts(opts);
    if opts.len() > 0 {
        let d = opts.drop_last();
        assert forall|i: int| 0 <= i < d.len() implies is_clean(#[trigger] d[i]) by {
            assert(d[i] == opts[i]);
        }
        lemma_pieces(d);
        assert(t.drop_last() =~= option_texts(d));
        lemma_option_text(opts.last());
        assert(d.push(opts.last()) =~= opts);
    } else {
        assert(opts =~= seq![]);
    }
}

/// Reading back what was composed: clean options survive being written into
/// an `Options=` string, in order and with their values.
pub proof fn law_parse_compose(opts: Seq<OptView>)
    requires
        forall|i: int| 0 <= i < opts.len() ==> is_clean(#[trigger] opts[i]),
    ensures
        options_of(compose_of(opts)) == opts,
{
    let t = option_texts(opts);
    reveal_strlit(",");
    assert(","@ =~= seq![',']);
    if opts.len() == 0 {
        let e = compose_of(opts);
        assert(parts::split_of(e, ',') =~= seq![e]);
        assert(seq![e].drop_last() =~= seq![]);
        assert(text::trim_of(e) =~= e);
        assert(options_of_pieces(seq![e].drop_last()) =~= seq![]);
        assert(options_of(e) =~= opts);
    } else {
        assert forall|i: int| 0 <= i < t.len() implies !(#[trigger] t[i]).contains(',') by {
            lemma_option_text(opts[i]);
        }
        parts::lemma_split_join(t, ',');
        lemma_pieces(opts);
    }
}

/// Trimming keeps only characters that were there.
proof fn lemma_trim_subset(s: Seq<char>, c: char)
    requires
        !s.contains(c),
    ensures
        !text::trim_of(s).contains(c),
{
    text::lemma_trim_start(s);
    let t = text::trim_start_of(s);
    text::lemma_trim_end(t);
    let u = text::trim_of(s);
    assert forall|i: int| 0 <= i < u.len() implies #[trigger] u[i] != c by {
        assert(u[i] == t[i]);
        assert(t[i] == s[s.len() - t.len() + i]);
        assert(s.contains(u[i]));
    }
}

proof fn lemma_pieces_clean(p: Seq<Seq<char>>)
    requires
        forall|i: int| 0 <= i < p.len() ==> !(#[trigger] p[i]).contains(','),
    ensures
        forall|i: int|
            0 <= i < options_of_pieces(p).len() ==> is_clean(#[trigger] options_of_pieces(p)[i]),
    decreases p.len(),
{
    if p.len() > 0 {
        let d = p.drop_last();
        assert forall|i: int| 0 <= i < d.len() implies !(#[trigger] d[i]).contains(',') by {
            assert(d[i] == p[i]);
        }
        lemma_pieces_clean(d);
        let e = text::trim_of(p.last());
        text::lemma_trim_trim(p.last());
        assert(p.last() == p[p.len() - 1]);
        lemma_trim_subset(p.last(), ',');
        if e.len() > 0 {
            let k = text::first_index(e, '=');
            text::lemma_first_index(e, '=');
            if k < e.len() {
                let a = e.take(k);
                let b = e.skip(k + 1);
                assert forall|i: int| 0 <= i < a.len() implies #[trigger] a[i] != ',' && a[i]
                    != '=' by {
                    assert(a[i] == e[i]);
                    assert(e.contains(a[i]));
                }
                assert forall|i: int| 0 <= i < b.len() implies #[trigger] b[i] != ',' by {
                    assert(b[i] == e[k + 1 + i]);
                    assert(e.contains(b[i]));
                }
                lemma_trim_subset(a, ',');
                lemma_trim_subset(a, '=');
                lemma_trim_subset(b, ',');
                text::lemma_trim_trim(a);
                text::lemma_trim_trim(b);
            } else {
                assert forall|i: int| 0 <= i < e.len() implies #[trigger] e[i] != '=' by {}
            }
            assert(is_clean(option_of(e)));
        }
        let g = options_of_pieces(d);
        let f = options_of_pieces(p);
        assert forall|i: int| 0 <= i < f.len() implies is_clean(#[trigger] f[i]) by {
            if i < g.len() {
                assert(f[i] == g[i]);
            } else {
                assert(f[i] == option_of(e));
            }
        }
    }
}

/// Everything read from an `Options=` string is clean, so composing it and
/// reading it again changes nothing: no option is lost and none moves.
pub proof fn law_parse_is_stable(s: Seq<char>)
    ensures
        forall|i: int| 0 <= i < options_of(s).len() ==> is_clean(#[trigger] options_of(s)[i]),
        options_of(compose_of(options_of(s))) == options_of(s),
{
    let p = parts::split_of(s, ',');
    crate::unit::escape::lemma_split_pieces(s, ',');
    assert forall|i: int| 0 <= i < p.len() implies !(#[trigger] p[i]).contains(',') by {}
    lemma_pieces_clean(p);
    law_parse_compose(options_of(s));
}

/// An element without white space around it, its key or its value, that is
/// not empty.
pub open spec fn is_tidy(e: Seq<char>) -> bool {
    &&& e.len() > 0
    &&& text::trim_of(e) == e
    &&& (parts::split_once_of(e, '=') matches Some((k, v)) ==> text::trim_of(k) == k
        && text::trim_of(v) == v)
}

proof fn lemma_tidy_pieces(p: Seq<Seq<char>>)
    requires
        forall|i: int| 0 <= i < p.len() ==> is_tidy(#[trigger] p[i]),
    ensures
        option_texts(options_of_pieces(p)) == p,
    decreases p.len(),
{
    if p.len() > 0 {
        let d = p.drop_last();
        assert forall|i: int| 0 <= i < d.len() implies is_tidy(#[trigger] d[i]) by {
            assert(d[i] == p[i]);
        }
        lemma_tidy_pieces(d);
        let e = p.last();
        assert(is_tidy(p[p.len() - 1]));
        assert(option_of(e).text_of() == e) by {
            reveal_strlit("=");
            let k = text::first_index(e, '=');
            text::lemma_first_index(e, '=');
            if k < e.len() {
                assert(e.take(k) + "="@ + e.skip(k + 1) =~= e);
            }
        }
        assert(option_texts(options_of_pieces(p)) =~= option_texts(options_of_pieces(d)).push(e));
        assert(d.push(e) =~= p);
    } else {
        assert(option_texts(options_of_pieces(p)) =~= p);
    }
}

/// Reading an `Options=` string and composing what was read reproduces it
/// byte for byte, where it has no empty element and no white space around an
/// element, a key or a value.
pub proof fn law_compose_parse(s: Seq<char>)
    requires
        s.len() > 0 ==> forall|i: int|
            0 <= i < parts::split_of(s, ',').len() ==> is_tidy(
                #[trigger] parts::split_of(s, ',')[i],
            ),
    ensures
        compose_of(options_of(s)) == s,
{
    reveal_strlit(",");
    assert(","@ =~= seq![',']);
    if s.len() == 0 {
        let none = Seq::<OptView>::empty();
        assert(compose_of(none) =~= s);
        law_parse_compose(none);
    } else {
        lemma_tidy_pieces(parts::split_of(s, ','));
        parts::lemma_join_split(s, ',');
    }
}

proof fn lemma_filter_filter(s: Seq<OptView>, p: spec_fn(OptView) -> bool, q: spec_fn(OptView) -> bool)
    requires
        forall|o: OptView| #[trigger] p(o) ==> q(o),
    ensures
        s.filter(q).filter(p) == s.filter(p),
    decreases s.len(),
{
    reveal(Seq::filter);
    if s.len() > 0 {
        let d = s.drop_last();
        lemma_filter_filter(d, p, q);
        if q(s.last()) {
            assert(s.filter(q).drop_last() =~= d.filter(q));
        }
        assert(p(s.last()) ==> q(s.last()));
    }
}

proof fn lemma_filter_update(s: Seq<OptView>, p: spec_fn(OptView) -> bool, at: int, o: OptView)
    requires
        0 <= at < s.len(),
        !p(s[at]),
        !p(o),
    ensures
        s.update(at, o).filter(p) == s.filter(p),
    decreases s.len(),
{
    reveal(Seq::filter);
    let t = s.update(at, o);
    if at == s.len() - 1 {
        assert(t.drop_last() =~= s.drop_last());
    } else {
        lemma_filter_update(s.drop_last(), p, at, o);
        assert(t.drop_last() =~= s.drop_last().update(at, o));
        assert(t.last() == s.last());
    }
}

proof fn lemma_sibling_index(opts: Seq<OptView>, family: Family, spec: SpecView)
    ensures
        0 <= sibling_index(opts, family, spec) <= opts.len(),
        sibling_index(opts, family, spec) < opts.len() ==> is_sibling(
            family,
            spec,
            opts[sibling_index(opts, family, spec)].key,
        ),
    decreases opts.len(),
{
    if opts.len() > 0 && !is_sibling(family, spec, opts[0].key) {
        lemma_sibling_index(opts.skip(1), family, spec);
    }
}

/// Turning on an option that the menu offers leaves every option the menu
/// cannot represent as it was, and in order.
pub proof fn law_enable_keeps_extras(
    opts: Seq<OptView>,
    family: Family,
    spec: SpecView,
    value: Option<Seq<char>>,
)
    requires
        is_known(family, spec.key),
    ensures
        extras_of(enabled_of(opts, family, spec, value), family) == extras_of(opts, family),
{
    let p = |o: OptView| !is_known(family, o.key);
    let q = |o: OptView| !is_sibling(family, spec, o.key);
    let new = OptView { key: spec.key, value };
    let at = if key_index(opts, spec.key) < opts.len() {
        key_index(opts, spec.key)
    } else {
        sibling_index(opts, family, spec)
    };
    lemma_key_index(opts, spec.key);
    lemma_sibling_index(opts, family, spec);
    let t = placed(opts, at, new);
    if at < opts.len() {
        lemma_filter_update(opts, p, at, new);
    } else {
        reveal(Seq::filter);
        assert(t.drop_last() =~= opts);
    }
    lemma_filter_filter(t, p, q);
}

proof fn lemma_filter_both(
    s: Seq<OptView>,
    p: spec_fn(OptView) -> bool,
    q: spec_fn(OptView) -> bool,
    both: spec_fn(OptView) -> bool,
)
    requires
        forall|o: OptView| #[trigger] both(o) == (p(o) && q(o)),
    ensures
        s.filter(q).filter(p) == s.filter(both),
    decreases s.len(),
{
    reveal(Seq::filter);
    if s.len() > 0 {
        let d = s.drop_last();
        lemma_filter_both(d, p, q, both);
        assert(both(s.last()) == (p(s.last()) && q(s.last())));
        if q(s.last()) {
            assert(s.filter(q).drop_last() =~= d.filter(q));
        }
    }
}

/// Turning on an option drops only what contradicts it, and moves nothing:
/// the other options are as they were, and in order.
pub proof fn law_enable_keeps_order(
    opts: Seq<OptView>,
    family: Family,
    spec: SpecView,
    value: Option<Seq<char>>,
)
    ensures
        enabled_of(opts, family, spec, value).filter(|o: OptView| o.key != spec.key)
            == opts.filter(|o: OptView| o.key != spec.key && !is_sibling(family, spec, o.key)),
{
    let p = |o: OptView| o.key != spec.key;
    let q = |o: OptView| !is_sibling(family, spec, o.key);
    let both = |o: OptView| o.key != spec.key && !is_sibling(family, spec, o.key);
    let new = OptView { key: spec.key, value };
    let at = if key_index(opts, spec.key) < opts.len() {
        key_index(opts, spec.key)
    } else {
        sibling_index(opts, family, spec)
    };
    lemma_key_index(opts, spec.key);
    lemma_sibling_index(opts, family, spec);
    let t = placed(opts, at, new);
    lemma_filter_both(t, p, q, both);
    if at < opts.len() {
        lemma_filter_update(opts, both, at, new);
    } else {
        reveal(Seq::filter);
        assert(t.drop_last() =~= opts);
    }
}

/// Once an option is on, none that contradicts it is left.
pub proof fn law_enable_is_exclusive(
    opts: Seq<OptView>,
    family: Family,
    spec: SpecView,
    value: Option<Seq<char>>,
)
    ensures
        forall|i: int|
            0 <= i < enabled_of(opts, family, spec, value).len() ==> !is_sibling(
                family,
                spec,
                (#[trigger] enabled_of(opts, family, spec, value)[i]).key,
            ),
        enabled_of(opts, family, spec, value).contains(OptView { key: spec.key, value }),
{
    let q = |o: OptView| !is_sibling(family, spec, o.key);
    let new = OptView { key: spec.key, value };
    let at = if key_index(opts, spec.key) < opts.len() {
        key_index(opts, spec.key)
    } else {
        sibling_index(opts, family, spec)
    };
    lemma_key_index(opts, spec.key);
    lemma_sibling_index(opts, family, spec);
    let t = placed(opts, at, new);
    let e = enabled_of(opts, family, spec, value);
    assert(e == t.filter(q));
    assert forall|i: int| 0 <= i < e.len() implies !is_sibling(
        family,
        spec,
        (#[trigger] e[i]).key,
    ) by {
        t.lemma_filter_pred(q, i);
    }
    assert(t[at] == new);
    t.lemma_filter_contains(q, at);
}

/// Turning on an option that is absent, with nothing that contradicts it,
/// appends it and changes nothing else.
pub proof fn law_enable_appends(
    opts: Seq<OptView>,
    family: Family,
    spec: SpecView,
    value: Option<Seq<char>>,
)
    requires
        forall|i: int|
            0 <= i < opts.len() ==> (#[trigger] opts[i]).key != spec.key && !is_sibling(
                family,
                spec,
                opts[i].key,
            ),
    ensures
        enabled_of(opts, family, spec, value) == opts.push(OptView { key: spec.key, value }),
{
    lemma_key_index(opts, spec.key);
    lemma_sibling_index(opts, family, spec);
    let q = |o: OptView| !is_sibling(family, spec, o.key);
    let new = OptView { key: spec.key, value };
    let t = opts.push(new);
    if key_index(opts, spec.key) < opts.len() {
        assert(opts[key_index(opts, spec.key)].key == spec.key);
    }
    if sibling_index(opts, family, spec) < opts.len() {
        assert(is_sibling(family, spec, opts[sibling_index(opts, family, spec)].key));
    }
    lemma_filter_all(t, q);
}

proof fn lemma_filter_all(s: Seq<OptView>, q: spec_fn(OptView) -> bool)
    requires
        forall|i: int| 0 <= i < s.len() ==> q(#[trigger] s[i]),
    ensures
        s.filter(q) == s,
    decreases s.len(),
{
    reveal(Seq::filter);
    if s.len() > 0 {
        let d = s.drop_last();
        assert forall|i: int| 0 <= i < d.len() implies q(#[trigger] d[i]) by {
            assert(d[i] == s[i]);
        }
        lemma_filter_all(d, q);
        assert(q(s[s.len() - 1]));
        assert(d.push(s.last()) =~= s);
    } else {
        assert(s.filter(q) =~= s);
    }
}

proof fn lemma_filter_none(s: Seq<OptView>, q: spec_fn(OptView) -> bool)
    requires
        forall|i: int| 0 <= i < s.len() ==> !q(#[trigger] s[i]),
    ensures
        s.filter(q) == Seq::<OptView>::empty(),
    decreases s.len(),
{
    reveal(Seq::filter);
    if s.len() > 0 {
        let d = s.drop_last();
        assert forall|i: int| 0 <= i < d.len() implies !q(#[trigger] d[i]) by {
            assert(d[i] == s[i]);
        }
        assert(!q(s[s.len() - 1]));
        lemma_filter_none(d, q);
    }
}

/// Replacing the extras by others that the menu cannot represent leaves every
/// option of the menu as it was, and in order; the extras are then the new
/// ones.
pub proof fn law_extras_leave_the_menu(opts: Seq<OptView>, family: Family, more: Seq<OptView>)
    requires
        forall|i: int| 0 <= i < more.len() ==> !is_known(family, (#[trigger] more[i]).key),
    ensures
        known_of(with_extras(opts, family, more), family) == known_of(opts, family),
        extras_of(with_extras(opts, family, more), family) == more,
{
    let p = |o: OptView| is_known(family, o.key);
    let q = |o: OptView| !is_known(family, o.key);
    let at = unknown_index(opts, family);
    let kept = known_of(opts, family);
    lemma_unknown_index(opts, family);
    assert forall|i: int| 0 <= i < kept.len() implies p(#[trigger] kept[i]) by {
        opts.lemma_filter_pred(p, i);
    }
    let a = kept.take(at);
    let b = kept.skip(at);
    assert forall|i: int| 0 <= i < a.len() implies p(#[trigger] a[i]) by {
        assert(a[i] == kept[i]);
    }
    assert forall|i: int| 0 <= i < b.len() implies p(#[trigger] b[i]) by {
        assert(b[i] == kept[at + i]);
    }
    lemma_filter_all(a, p);
    lemma_filter_all(b, p);
    lemma_filter_none(a, q);
    lemma_filter_none(b, q);
    lemma_filter_all(more, q);
    lemma_filter_none(more, p);
    Seq::filter_distributes_over_add(a + more, b, p);
    Seq::filter_distributes_over_add(a, more, p);
    Seq::filter_distributes_over_add(a + more, b, q);
    Seq::filter_distributes_over_add(a, more, q);
    assert(a + seq![] + b =~= kept);
    assert(seq![] + more + seq![] =~= more);
}

// ---------------------------------------------------------------------------
// Families
// ---------------------------------------------------------------------------

/// The family of a file system does not depend on case, nor on white space
/// around its name.
pub proof fn law_families_ignore_case(fstype: Seq<char>)
    requires
        text::trim_of(fstype) == fstype,
        text::trim_of(text::lower_text(fstype)) == text::lower_text(fstype),
    ensures
        family_of(text::lower_text(fstype)) == family_of(fstype),
{
    let t = text::lower_text(fstype);
    assert(text::lower_text(t) =~= t);
}

/// What is offered for a file system is the generic options, then those of
/// its family and of no other.
pub proof fn law_families_offer_their_own(family: Family, i: int)
    requires
        0 <= i < offered_of(family).len(),
    ensures
        offered_of(family)[i].family is None || offered_of(family)[i].family == Some(family),
        i < generic_specs().len() ==> offered_of(family)[i] == generic_specs()[i],
{
}

} // verus!
