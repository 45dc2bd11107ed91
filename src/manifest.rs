//! The manifest's modules, and the classification of its functions into
//! those that a user or the platform can invoke directly and those that only
//! internal triggers reach.
use vstd::prelude::*;

verus! {

/// The auth providers that a function declares.
#[derive(Debug, Clone, PartialEq, Eq)]
pub struct AuthProviders {
    pub auth: Vec<String>,
}

/// A declared function: its key and its `module.export` handler.
#[derive(Debug, Clone, PartialEq, Eq)]
pub struct FunctionMod {
    pub key: String,
    pub handler: String,
    pub providers: Option<AuthProviders>,
}

/// A trigger that names a function by key; as a web trigger it exposes the
/// function to outside HTTP calls.
#[derive(Debug, Clone, PartialEq, Eq)]
pub struct RawTrigger {
    pub key: String,
    pub function: String,
}

/// A trigger that fires on platform events.
#[derive(Debug, Clone, PartialEq, Eq)]
pub struct EventTrigger {
    pub raw: RawTrigger,
    pub events: Vec<String>,
}

/// How often a scheduled trigger fires.
#[derive(PartialEq, Eq, Structural, Debug, Clone, Copy)]
pub enum Interval {
    Hour,
    Day,
    Week,
}

/// A trigger that fires on an interval.
#[derive(Debug, Clone, PartialEq, Eq)]
pub struct ScheduledTrigger {
    pub raw: RawTrigger,
    pub interval: Option<Interval>,
}

/// A function reached through a resolver, with an optional method.
#[derive(Debug, Clone, PartialEq, Eq)]
pub struct Resolver {
    pub function: String,
    pub method: Option<String>,
}

/// A queue consumer: the messaging backend invokes its resolver, if it has
/// one.
#[derive(Debug, Clone, PartialEq, Eq)]
pub struct Consumer {
    pub key: String,
    pub queue: String,
    pub resolver: Option<Resolver>,
}

/// An entry of a module category that is not modelled one by one (panels,
/// custom fields, validators, ...): what it can invoke.
#[derive(Debug, Clone, PartialEq, Eq)]
pub struct Module {
    pub function: Option<String>,
    pub resolver: Option<Resolver>,
}

/// The modules of a manifest. `extra` holds every other category by name.
#[derive(Debug, Clone, PartialEq, Eq)]
pub struct ForgeModules {
    pub functions: Vec<FunctionMod>,
    pub webtriggers: Vec<RawTrigger>,
    pub event_triggers: Vec<EventTrigger>,
    pub scheduled_triggers: Vec<ScheduledTrigger>,
    pub consumers: Vec<Consumer>,
    pub extra: Vec<(String, Vec<Module>)>,
}

/// The app's identity.
#[derive(Debug, Clone, PartialEq, Eq)]
pub struct AppInfo {
    pub name: Option<String>,
    pub id: String,
}

/// Assets that the app loads.
#[derive(Debug, Clone, PartialEq, Eq)]
pub struct Content {
    pub scripts: Vec<String>,
    pub styles: Vec<String>,
}

/// The permissions that the app declares.
#[derive(Debug, Clone, PartialEq, Eq)]
pub struct Perms {
    pub scopes: Vec<String>,
    pub content: Content,
}

/// A whole manifest.
#[derive(Debug, Clone, PartialEq, Eq)]
pub struct ForgeManifest {
    pub app: AppInfo,
    pub modules: ForgeModules,
    pub permissions: Perms,
}

/// A function that needs scanning, with the way it is reached.
#[derive(Debug, Clone, PartialEq, Eq)]
pub enum FunctionTy<T> {
    Invokable(T),
    WebTrigger(T),
}

impl<T> FunctionTy<T> {
    /// The function, whichever way it is reached.
    pub open spec fn inner(self) -> T {
        match self {
            FunctionTy::Invokable(t) => t,
            FunctionTy::WebTrigger(t) => t,
        }
    }

    /// The value `f` gives for the function, reached the same way.
    pub fn map<O, F: FnOnce(T) -> O>(self, f: F) -> (r: FunctionTy<O>)
        requires
            f.requires((self.inner(),)),
        ensures
            (self is Invokable && r is Invokable) || (self is WebTrigger && r is WebTrigger),
            f.ensures((self.inner(),), r.inner()),
    {
        match self {
            FunctionTy::Invokable(t) => FunctionTy::Invokable(f(t)),
            FunctionTy::WebTrigger(t) => FunctionTy::WebTrigger(f(t)),
        }
    }

    /// The function, whichever way it is reached.
    pub fn as_ref(&self) -> (r: &T)
        ensures
            *r == self.inner(),
    {
        match self {
            FunctionTy::Invokable(t) => t,
            FunctionTy::WebTrigger(t) => t,
        }
    }
}

/// Functions that a scheduled trigger names.
pub open spec fn scheduled_functions(m: ForgeModules) -> Set<Seq<char>> {
    Set::new(
        |f: Seq<char>|
            exists|i: int|
                0 <= i < m.scheduled_triggers@.len() && (#[trigger] m.scheduled_triggers@[i]).raw.function@
                    == f,
    )
}

/// Functions that an event trigger names.
pub open spec fn event_functions(m: ForgeModules) -> Set<Seq<char>> {
    Set::new(
        |f: Seq<char>|
            exists|i: int|
                0 <= i < m.event_triggers@.len() && (#[trigger] m.event_triggers@[i]).raw.function@ == f,
    )
}

/// Whether a module entry names `f`, directly or through its resolver.
pub open spec fn module_names(md: Module, f: Seq<char>) -> bool {
    (md.function is Some && md.function->0@ == f) || (md.resolver is Some
        && md.resolver->0.function@ == f)
}

/// Functions that an entry of some other module category names: each of them
/// is reachable by a user.
pub open spec fn alternate_functions(m: ForgeModules) -> Set<Seq<char>> {
    Set::new(
        |f: Seq<char>|
            exists|c: int, j: int|
                0 <= c < m.extra@.len() && 0 <= j < m.extra@[c].1@.len() && module_names(
                    #[trigger] m.extra@[c].1@[j],
                    f,
                ),
    )
}

/// Whether a consumer's resolver names `f`.
pub open spec fn consumer_names(c: Consumer, f: Seq<char>) -> bool {
    c.resolver is Some && c.resolver->0.function@ == f
}

/// Functions that a consumer names.
pub open spec fn consumer_functions(m: ForgeModules) -> Set<Seq<char>> {
    Set::new(
        |f: Seq<char>|
            exists|i: int|
                0 <= i < m.consumers@.len() && consumer_names(#[trigger] m.consumers@[i], f),
    )
}

/// Functions that only internal triggers reach: those of scheduled and event
/// triggers, and those of consumers that no other module names.
pub open spec fn ignored_functions(m: ForgeModules) -> Set<Seq<char>> {
    scheduled_functions(m).union(event_functions(m)).union(
        consumer_functions(m).difference(alternate_functions(m)),
    )
}

/// Functions that a web trigger names.
pub open spec fn webtrigger_functions(m: ForgeModules) -> Set<Seq<char>> {
    Set::new(
        |f: Seq<char>|
            exists|i: int| 0 <= i < m.webtriggers@.len() && (#[trigger] m.webtriggers@[i]).function@ == f,
    )
}

/// The functions of `fs` that are not ignored, in order, each tagged as a web
/// trigger when `web` holds its key and as invokable otherwise.
pub open spec fn analyzable(fs: Seq<FunctionMod>, ignored: Set<Seq<char>>, web: Set<Seq<char>>) -> Seq<
    FunctionTy<FunctionMod>,
>
    decreases fs.len(),
{
    if fs.len() == 0 {
        Seq::empty()
    } else {
        let prev = analyzable(fs.drop_last(), ignored, web);
        let f = fs.last();
        if ignored.contains(f.key@) {
            prev
        } else if web.contains(f.key@) {
            prev.push(FunctionTy::WebTrigger(f))
        } else {
            prev.push(FunctionTy::Invokable(f))
        }
    }
}

/// Whether `out` reports a function with key `f`.
pub open spec fn reports(out: Seq<FunctionTy<FunctionMod>>, f: Seq<char>) -> bool {
    exists|i: int| 0 <= i < out.len() && (#[trigger] out[i]).inner().key@ == f
}

/// Whether `fs` declares a function with key `f`.
pub open spec fn declares(fs: Seq<FunctionMod>, f: Seq<char>) -> bool {
    exists|i: int| 0 <= i < fs.len() && (#[trigger] fs[i]).key@ == f
}

fn names_scheduled(m: &ForgeModules, f: &String) -> (r: bool)
    ensures
        r == scheduled_functions(*m).contains(f@),
{
    let mut i: usize = 0;
    while i < m.scheduled_triggers.len()
        invariant
            i <= m.scheduled_triggers@.len(),
            forall|x: int| 0 <= x < i ==> (#[trigger] m.scheduled_triggers@[x]).raw.function@ != f@,
        decreases m.scheduled_triggers@.len() - i,
    {
        if m.scheduled_triggers[i].raw.function == *f {
            return true;
        }
        i = i + 1;
    }
    false
}

fn names_event(m: &ForgeModules, f: &String) -> (r: bool)
    ensures
        r == event_functions(*m).contains(f@),
{
    let mut i: usize = 0;
    while i < m.event_triggers.len()
        invariant
            i <= m.event_triggers@.len(),
            forall|x: int| 0 <= x < i ==> (#[trigger] m.event_triggers@[x]).raw.function@ != f@,
        decreases m.event_triggers@.len() - i,
    {
        if m.event_triggers[i].raw.function == *f {
            return true;
        }
        i = i + 1;
    }
    false
}

fn names_consumer(m: &ForgeModules, f: &String) -> (r: bool)
    ensures
        r == consumer_functions(*m).contains(f@),
{
    let mut i: usize = 0;
    while i < m.consumers.len()
        invariant
            i <= m.consumers@.len(),
            forall|x: int| 0 <= x < i ==> !consumer_names(#[trigger] m.consumers@[x], f@),
        decreases m.consumers@.len() - i,
    {
        let named = match &m.consumers[i].resolver {
            Some(res) => res.function == *f,
            None => false,
        };
        if named {
            return true;
        }
        i = i + 1;
    }
    false
}

fn names_webtrigger(m: &ForgeModules, f: &String) -> (r: bool)
    ensures
        r == webtrigger_functions(*m).contains(f@),
{
    let mut i: usize = 0;
    while i < m.webtriggers.len()
        invariant
            i <= m.webtriggers@.len(),
            forall|x: int| 0 <= x < i ==> (#[trigger] m.webtriggers@[x]).function@ != f@,
        decreases m.webtriggers@.len() - i,
    {
        if m.webtriggers[i].function == *f {
            return true;
        }
        i = i + 1;
    }
    false
}

fn module_names_exec(md: &Module, f: &String) -> (r: bool)
    ensures
        r == module_names(*md, f@),
{
    let direct = match &md.function {
        Some(g) => *g == *f,
        None => false,
    };
    let through_resolver = match &md.resolver {
        Some(res) => res.function == *f,
        None => false,
    };
    direct || through_resolver
}

fn names_alternate(m: &ForgeModules, f: &String) -> (r: bool)
    ensures
        r == alternate_functions(*m).contains(f@),
{
    let mut c: usize = 0;
    while c < m.extra.len()
        invariant
            c <= m.extra@.len(),
            forall|x: int, j: int|
                0 <= x < c && 0 <= j < m.extra@[x].1@.len() ==> !module_names(
                    #[trigger] m.extra@[x].1@[j],
                    f@,
                ),
        decreases m.extra@.len() - c,
    {
        let entries = &m.extra[c].1;
        let mut j: usize = 0;
        while j < entries.len()
            invariant
                c < m.extra@.len(),
                *entries == m.extra@[c as int].1,
                j <= entries@.len(),
                forall|x: int, y: int|
                    0 <= x < c && 0 <= y < m.extra@[x].1@.len() ==> !module_names(
                        #[trigger] m.extra@[x].1@[y],
                        f@,
                    ),
                forall|y: int| 0 <= y < j ==> !module_names(#[trigger] entries@[y], f@),
            decreases entries@.len() - j,
        {
            if module_names_exec(&entries[j], f) {
                proof {
                    assert(module_names(m.extra@[c as int].1@[j as int], f@));
                }
                return true;
            }
            j = j + 1;
        }
        c = c + 1;
    }
    false
}

impl ForgeModules {
    /// Whether only internal triggers reach the function with key `f`.
    pub fn is_ignored(&self, f: &String) -> (r: bool)
        ensures
            r == ignored_functions(*self).contains(f@),
    {
        names_scheduled(self, f) || names_event(self, f) || (names_consumer(self, f)
            && !names_alternate(self, f))
    }

    /// The declared functions that need scanning, in order: each function
    /// that is not reached only by internal triggers, tagged as a web trigger
    /// when a web trigger names it and as invokable otherwise.
    pub fn into_analyzable_functions(self) -> (r: Vec<FunctionTy<FunctionMod>>)
        ensures
            r@ == analyzable(
                self.functions@,
                ignored_functions(self),
                webtrigger_functions(self),
            ),
    {
        let ghost ign = ignored_functions(self);
        let ghost web = webtrigger_functions(self);
        let ghost fs = self.functions@;
        let ForgeModules { functions, webtriggers, event_triggers, scheduled_triggers, consumers, extra } = self;
        let rest = ForgeModules {
            functions: Vec::new(),
            webtriggers,
            event_triggers,
            scheduled_triggers,
            consumers,
            extra,
        };
        assert(ignored_functions(rest) == ign);
        assert(webtrigger_functions(rest) == web);
        let mut functions = functions;
        let mut out: Vec<FunctionTy<FunctionMod>> = Vec::new();
        let mut k: usize = 0;
        let n = functions.len();
        proof {
            assert(fs.take(0) =~= Seq::<FunctionMod>::empty());
            assert(fs.skip(0) =~= fs);
        }
        while k < n
            invariant
                n == fs.len(),
                k <= n,
                functions@ == fs.skip(k as int),
                ignored_functions(rest) == ign,
                webtrigger_functions(rest) == web,
                out@ == analyzable(fs.take(k as int), ign, web),
            decreases n - k,
        {
            let f = functions.remove(0);
            proof {
                assert(f == fs[k as int]);
                assert(functions@ =~= fs.skip(k + 1));
                assert(fs.take(k + 1).drop_last() =~= fs.take(k as int));
                assert(fs.take(k + 1).last() == f);
            }
            if !rest.is_ignored(&f.key) {
                if names_webtrigger(&rest, &f.key) {
                    out.push(FunctionTy::WebTrigger(f));
                } else {
                    out.push(FunctionTy::Invokable(f));
                }
            }
            k = k + 1;
        }
        proof {
            assert(fs.take(n as int) =~= fs);
        }
        out
    }
}

/// A function with key `f` is reported exactly when it is declared and not
/// ignored.
pub proof fn lemma_reported_iff_declared_and_kept(
    fs: Seq<FunctionMod>,
    ignored: Set<Seq<char>>,
    web: Set<Seq<char>>,
    f: Seq<char>,
)
    ensures
        reports(analyzable(fs, ignored, web), f) == (declares(fs, f) && !ignored.contains(f)),
    decreases fs.len(),
{
    if fs.len() > 0 {
        let init = fs.drop_last();
        lemma_reported_iff_declared_and_kept(init, ignored, web, f);
        let prev = analyzable(init, ignored, web);
        let out = analyzable(fs, ignored, web);
        if reports(prev, f) {
            let i = choose|i: int| 0 <= i < prev.len() && (#[trigger] prev[i]).inner().key@ == f;
            assert(out[i] == prev[i]);
            let j = choose|j: int| 0 <= j < init.len() && (#[trigger] init[j]).key@ == f;
            assert(fs[j] == init[j]);
        }
        if reports(out, f) {
            let i = choose|i: int| 0 <= i < out.len() && (#[trigger] out[i]).inner().key@ == f;
            if i < prev.len() {
                assert(out[i] == prev[i]);
            }
        }
        if declares(fs, f) && !ignored.contains(f) {
            let j = choose|j: int| 0 <= j < fs.len() && (#[trigger] fs[j]).key@ == f;
            if j < init.len() {
                assert(fs[j] == init[j]);
            } else {
                assert(out[prev.len() as int].inner() == fs.last());
            }
        }
    }
}

/// How many entries of `out` report a function with key `f`.
pub open spec fn report_count(out: Seq<FunctionTy<FunctionMod>>, f: Seq<char>) -> nat
    decreases out.len(),
{
    if out.len() == 0 {
        0
    } else {
        report_count(out.drop_last(), f) + if out.last().inner().key@ == f {
            1nat
        } else {
            0nat
        }
    }
}

/// How many functions of `fs` have the key `f`.
pub open spec fn declaration_count(fs: Seq<FunctionMod>, f: Seq<char>) -> nat
    decreases fs.len(),
{
    if fs.len() == 0 {
        0
    } else {
        declaration_count(fs.drop_last(), f) + if fs.last().key@ == f {
            1nat
        } else {
            0nat
        }
    }
}

/// A function that is not ignored is reported once for each declaration of
/// it, and as invokable when no web trigger names it.
pub proof fn lemma_kept_function_reported_per_declaration(
    fs: Seq<FunctionMod>,
    ignored: Set<Seq<char>>,
    web: Set<Seq<char>>,
    f: Seq<char>,
)
    requires
        !ignored.contains(f),
    ensures
        report_count(analyzable(fs, ignored, web), f) == declaration_count(fs, f),
        !web.contains(f) ==> forall|i: int|
            0 <= i < analyzable(fs, ignored, web).len() && (#[trigger] analyzable(fs, ignored, web)[i]).inner().key@
                == f ==> analyzable(fs, ignored, web)[i] is Invokable,
    decreases fs.len(),
{
    if fs.len() > 0 {
        let init = fs.drop_last();
        lemma_kept_function_reported_per_declaration(init, ignored, web, f);
        let prev = analyzable(init, ignored, web);
        let out = analyzable(fs, ignored, web);
        if !ignored.contains(fs.last().key@) {
            assert(out.drop_last() =~= prev);
        }
        if !web.contains(f) {
            assert forall|i: int| 0 <= i < out.len() && (#[trigger] out[i]).inner().key@ == f implies out[i] is Invokable by {
                if i < prev.len() {
                    assert(out[i] == prev[i]);
                }
            }
        }
    }
}

/// A declared consumer function that another module category names, and no
/// scheduled or event trigger, is reported once for each of its
/// declarations, as invokable when no web trigger names it.
pub proof fn lemma_exposed_consumer_reported_per_declaration(m: ForgeModules, f: Seq<char>)
    requires
        consumer_functions(m).contains(f),
        alternate_functions(m).contains(f),
        !scheduled_functions(m).contains(f),
        !event_functions(m).contains(f),
    ensures
        report_count(analyzable(m.functions@, ignored_functions(m), webtrigger_functions(m)), f)
            == declaration_count(m.functions@, f),
        !webtrigger_functions(m).contains(f) ==> forall|i: int|
            0 <= i < analyzable(m.functions@, ignored_functions(m), webtrigger_functions(m)).len()
                && (#[trigger] analyzable(m.functions@, ignored_functions(m), webtrigger_functions(m))[i]).inner().key@
                == f ==> analyzable(m.functions@, ignored_functions(m), webtrigger_functions(m))[i] is Invokable,
{
    lemma_kept_function_reported_per_declaration(
        m.functions@,
        ignored_functions(m),
        webtrigger_functions(m),
        f,
    );
}

/// A function named by a scheduled or an event trigger is never among the
/// functions that need scanning, whatever else names it.
pub proof fn lemma_triggered_functions_omitted(m: ForgeModules, f: Seq<char>)
    requires
        scheduled_functions(m).contains(f) || event_functions(m).contains(f),
    ensures
        !reports(analyzable(m.functions@, ignored_functions(m), webtrigger_functions(m)), f),
{
    lemma_reported_iff_declared_and_kept(
        m.functions@,
        ignored_functions(m),
        webtrigger_functions(m),
        f,
    );
}

/// A function that a consumer names and no other module category names is
/// not among the functions that need scanning.
pub proof fn lemma_internal_consumer_omitted(m: ForgeModules, f: Seq<char>)
    requires
        consumer_functions(m).contains(f),
        !alternate_functions(m).contains(f),
    ensures
        !reports(analyzable(m.functions@, ignored_functions(m), webtrigger_functions(m)), f),
{
    lemma_reported_iff_declared_and_kept(
        m.functions@,
        ignored_functions(m),
        webtrigger_functions(m),
        f,
    );
}

/// A declared function that a consumer names is among the functions that
/// need scanning when another module category names it too and no scheduled
/// or event trigger does.
pub proof fn lemma_exposed_consumer_kept(m: ForgeModules, f: Seq<char>)
    requires
        consumer_functions(m).contains(f),
        alternate_functions(m).contains(f),
        !scheduled_functions(m).contains(f),
        !event_functions(m).contains(f),
        declares(m.functions@, f),
    ensures
        reports(analyzable(m.functions@, ignored_functions(m), webtrigger_functions(m)), f),
{
    lemma_reported_iff_declared_and_kept(
        m.functions@,
        ignored_functions(m),
        webtrigger_functions(m),
        f,
    );
}

} // verus!
