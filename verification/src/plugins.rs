//! The plugin hook pipeline.
//!
//! Plugins form an ordered chain. Resolution and loading are single-answer
//! decisions: the first plugin that answers with something other than `Skip`
//! short-circuits the chain. Transformation composes: every plugin runs, each
//! seeing the previous plugin's output, and a later source map overwrites an
//! earlier one. The decision rules are pure functions with proofs; the
//! manager drives registered plugins through them.

use vstd::prelude::*;

verus! {

use vstd::string::StringExecFns;
use crate::json::{json_is_valid, json_valid};
use crate::strutil::{chars_eq, chars_start_with, chars_to_string, is_prefix_of, str_eq, str_to_chars};

/// Plugin hook context.
pub struct PluginContext {
    /// Project root directory.
    pub root: String,
}

/// Result of a resolve hook.
pub enum ResolveResult {
    /// No opinion: the next plugin, or the built-in resolver, decides.
    Skip,
    /// Resolved path.
    Resolved(String),
    /// Mark as external (do not bundle).
    External,
}

/// Result of a load hook.
pub enum LoadResult {
    /// No opinion: the next plugin, or the filesystem, loads.
    Skip,
    /// Loaded content.
    Loaded {
        /// The module's text.
        content: String,
        /// Optional loader type (js, css, json, …) overriding the extension.
        loader: Option<String>,
    },
}

/// Result of a transform hook.
pub enum TransformResult {
    /// No transformation by this plugin.
    Skip,
    /// Transformed code.
    Transformed {
        /// The rewritten code.
        code: String,
        /// Optional source map.
        map: Option<String>,
    },
}

/// A plugin: an ordered capability set over the build's hooks. Implement
/// only what the plugin cares about; every hook defaults to no opinion.
pub trait Plugin {
    /// Plugin name for logging and debugging.
    fn name(&self) -> &str;

    /// Called when the build starts.
    fn build_start(&self, ctx: &PluginContext) -> Result<(), String>;

    /// Called when the build ends.
    fn build_end(&self, ctx: &PluginContext) -> Result<(), String>;

    /// Resolve an import specifier to a path, or pass.
    fn resolve_id(&self, specifier: &str, importer: Option<&str>, ctx: &PluginContext) -> Result<
        ResolveResult,
        String,
    >;

    /// Load the content of a module, or pass.
    fn load(&self, id: &str, ctx: &PluginContext) -> Result<LoadResult, String>;

    /// Transform the code of a module, or pass.
    fn transform(&self, code: &str, id: &str, ctx: &PluginContext) -> Result<
        TransformResult,
        String,
    >;
}

/// The single-answer rule for resolve answers: the first answer that is not
/// `Skip` wins; all `Skip` means no plugin had an opinion.
pub open spec fn first_answer_spec(answers: Seq<ResolveResult>, i: int) -> ResolveResult
    decreases answers.len() - i,
{
    if i < 0 || i >= answers.len() {
        ResolveResult::Skip
    } else if answers[i] is Skip {
        first_answer_spec(answers, i + 1)
    } else {
        answers[i]
    }
}

/// The first non-`Skip` resolve answer, or `Skip` when there is none.
pub fn first_resolve_answer(answers: &Vec<ResolveResult>) -> (r: ResolveResult)
    ensures
        r == first_answer_spec(answers@, 0),
{
    let mut i: usize = 0;
    while i < answers.len()
        invariant
            i <= answers.len(),
            first_answer_spec(answers@, 0) == first_answer_spec(answers@, i as int),
        decreases answers.len() - i,
    {
        proof {
            assert(first_answer_spec(answers@, i as int) == if answers@[i as int] is Skip {
                first_answer_spec(answers@, i as int + 1)
            } else {
                answers@[i as int]
            });
        }
        match &answers[i] {
            ResolveResult::Skip => {},
            ResolveResult::Resolved(p) => {
                let pc = p.clone();
                let r = ResolveResult::Resolved(pc);
                proof {
                    assert(r == answers@[i as int]);
                }
                return r;
            },
            ResolveResult::External => {
                return ResolveResult::External;
            },
        }
        i = i + 1;
    }
    ResolveResult::Skip
}

/// The plugin short-circuit law: when the answers up to position `i` are all
/// `Skip` and the answer at `i` is not, that answer decides, and the answers
/// after `i` play no part in the decision.
pub proof fn lemma_resolve_short_circuit(answers: Seq<ResolveResult>, i: int)
    requires
        0 <= i < answers.len(),
        !(answers[i] is Skip),
        forall|k: int| 0 <= k < i ==> answers[k] is Skip,
    ensures
        first_answer_spec(answers, 0) == answers[i],
        first_answer_spec(answers, 0) == first_answer_spec(answers.take(i + 1), 0),
{
    lemma_first_answer_from(answers, 0, i);
    lemma_first_answer_from(answers.take(i + 1), 0, i);
    assert(answers.take(i + 1)[i] == answers[i]);
}

proof fn lemma_first_answer_from(answers: Seq<ResolveResult>, j: int, i: int)
    requires
        0 <= j <= i < answers.len(),
        !(answers[i] is Skip),
        forall|k: int| j <= k < i ==> answers[k] is Skip,
    ensures
        first_answer_spec(answers, j) == answers[i],
    decreases i - j,
{
    if j < i {
        lemma_first_answer_from(answers, j + 1, i);
    }
}

/// The view of a transform answer.
pub open spec fn transform_answer_view(a: TransformResult) -> Option<(Seq<char>, Option<Seq<char>>)> {
    match a {
        TransformResult::Skip => None,
        TransformResult::Transformed { code, map } => Some(
            (
                code@,
                match map {
                    Some(m) => Some(m@),
                    None => None,
                },
            ),
        ),
    }
}

/// The transform composition rule: answers apply in order, each receiving
/// the previous code; a later map overwrites an earlier one.
pub open spec fn fold_transforms_spec(
    answers: Seq<TransformResult>,
    i: int,
    code: Seq<char>,
    map: Option<Seq<char>>,
) -> (Seq<char>, Option<Seq<char>>)
    decreases answers.len() - i,
{
    if i < 0 || i >= answers.len() {
        (code, map)
    } else {
        match transform_answer_view(answers[i]) {
            None => fold_transforms_spec(answers, i + 1, code, map),
            Some(cm) => fold_transforms_spec(
                answers,
                i + 1,
                cm.0,
                if cm.1 is Some {
                    cm.1
                } else {
                    map
                },
            ),
        }
    }
}

/// The transform composition law: a `Skip` at position `i` passes the code
/// and map through unchanged, and a transforming answer hands exactly its
/// own output code to position `i + 1`.
pub proof fn lemma_transform_composition(
    answers: Seq<TransformResult>,
    i: int,
    code: Seq<char>,
    map: Option<Seq<char>>,
)
    requires
        0 <= i < answers.len(),
    ensures
        answers[i] is Skip ==> fold_transforms_spec(answers, i, code, map)
            == fold_transforms_spec(answers, i + 1, code, map),
        transform_answer_view(answers[i]) matches Some(cm) ==> fold_transforms_spec(
            answers,
            i,
            code,
            map,
        ) == fold_transforms_spec(
            answers,
            i + 1,
            cm.0,
            if cm.1 is Some {
                cm.1
            } else {
                map
            },
        ),
{
}

/// Plugin manager: an ordered, registered list of plugins.
pub struct PluginManager {
    /// The registered plugins, in registration order.
    pub plugins: Vec<Box<dyn Plugin>>,
    /// The context handed to every hook.
    pub context: PluginContext,
}

/// The single-answer rule for load answers: the first answer that is not
/// `Skip` wins; all `Skip` means no plugin supplied content.
pub open spec fn first_load_spec(answers: Seq<LoadResult>, i: int) -> LoadResult
    decreases answers.len() - i,
{
    if i < 0 || i >= answers.len() {
        LoadResult::Skip
    } else if answers[i] is Skip {
        first_load_spec(answers, i + 1)
    } else {
        answers[i]
    }
}

/// The first non-`Skip` load answer, or `Skip` when there is none.
pub fn first_load_answer(answers: &Vec<LoadResult>) -> (r: LoadResult)
    ensures
        r == first_load_spec(answers@, 0),
{
    let mut i: usize = 0;
    while i < answers.len()
        invariant
            i <= answers.len(),
            first_load_spec(answers@, 0) == first_load_spec(answers@, i as int),
        decreases answers.len() - i,
    {
        proof {
            assert(first_load_spec(answers@, i as int) == if answers@[i as int] is Skip {
                first_load_spec(answers@, i as int + 1)
            } else {
                answers@[i as int]
            });
        }
        match &answers[i] {
            LoadResult::Skip => {},
            LoadResult::Loaded { content, loader } => {
                let lc = match loader {
                    Some(l) => Some(l.clone()),
                    None => None,
                };
                let r = LoadResult::Loaded { content: content.clone(), loader: lc };
                proof {
                    assert(r == answers@[i as int]);
                }
                return r;
            },
        }
        i = i + 1;
    }
    LoadResult::Skip
}

/// The view of an optional source map.
pub open spec fn opt_view(m: Option<String>) -> Option<Seq<char>> {
    match m {
        Some(s) => Some(s@),
        None => None,
    }
}

/// One step of the composition rule: a `Skip` answer leaves the running
/// code and map alone; a transforming answer replaces the code and, when it
/// carries a map, the map.
pub open spec fn apply_transform_answer(
    a: TransformResult,
    code: Seq<char>,
    map: Option<Seq<char>>,
) -> (Seq<char>, Option<Seq<char>>) {
    match transform_answer_view(a) {
        None => (code, map),
        Some(cm) => (
            cm.0,
            if cm.1 is Some {
                cm.1
            } else {
                map
            },
        ),
    }
}

/// Apply one transform answer to the running code and map: the executable
/// step the composition fold is made of.
pub fn apply_transform_step(answer: TransformResult, code: String, map: Option<String>) -> (r: (
    String,
    Option<String>,
))
    ensures
        (r.0@, opt_view(r.1)) == apply_transform_answer(answer, code@, opt_view(map)),
{
    match answer {
        TransformResult::Skip => (code, map),
        TransformResult::Transformed { code: new_code, map: new_map } => {
            match new_map {
                Some(m) => (new_code, Some(m)),
                None => (new_code, map),
            }
        },
    }
}

/// Folding one more answer onto the end applies exactly that answer to the
/// fold of the answers before it.
proof fn lemma_fold_push(
    answers: Seq<TransformResult>,
    a: TransformResult,
    i: int,
    code: Seq<char>,
    map: Option<Seq<char>>,
)
    requires
        0 <= i <= answers.len(),
    ensures
        fold_transforms_spec(answers.push(a), i, code, map) == apply_transform_answer(
            a,
            fold_transforms_spec(answers, i, code, map).0,
            fold_transforms_spec(answers, i, code, map).1,
        ),
    decreases answers.len() - i,
{
    if i == answers.len() {
        assert(answers.push(a)[i] == a);
        assert(fold_transforms_spec(answers, i, code, map) == (code, map));
        match transform_answer_view(a) {
            None => {
                assert(fold_transforms_spec(answers.push(a), i, code, map)
                    == fold_transforms_spec(answers.push(a), i + 1, code, map));
                assert(fold_transforms_spec(answers.push(a), i + 1, code, map) == (code, map));
            },
            Some(cm) => {
                let nm = if cm.1 is Some {
                    cm.1
                } else {
                    map
                };
                assert(fold_transforms_spec(answers.push(a), i, code, map)
                    == fold_transforms_spec(answers.push(a), i + 1, cm.0, nm));
                assert(fold_transforms_spec(answers.push(a), i + 1, cm.0, nm) == (cm.0, nm));
            },
        }
    } else {
        assert(answers.push(a)[i] == answers[i]);
        match transform_answer_view(answers[i]) {
            None => {
                lemma_fold_push(answers, a, i + 1, code, map);
            },
            Some(cm) => {
                lemma_fold_push(
                    answers,
                    a,
                    i + 1,
                    cm.0,
                    if cm.1 is Some {
                        cm.1
                    } else {
                        map
                    },
                );
            },
        }
    }
}

impl PluginManager {
    /// Create a new plugin manager.
    pub fn new(root: String) -> (r: Self)
        ensures
            r.plugins@.len() == 0,
            r.context.root@ == root@,
    {
        PluginManager { plugins: Vec::new(), context: PluginContext { root } }
    }

    /// Register a plugin at the end of the chain.
    pub fn register(&mut self, plugin: Box<dyn Plugin>)
        ensures
            final(self).plugins@ == old(self).plugins@.push(plugin),
            final(self).context == old(self).context,
    {
        self.plugins.push(plugin);
    }

    /// Run every plugin's build-start hook, stopping at the first failure.
    /// (What a hook does is the plugin's own; an empty chain cannot fail.)
    pub fn run_build_start(&self) -> (r: Result<(), String>)
        ensures
            self.plugins@.len() == 0 ==> r is Ok,
    {
        let mut i: usize = 0;
        while i < self.plugins.len()
            decreases self.plugins.len() - i,
        {
            match self.plugins[i].build_start(&self.context) {
                Ok(_) => {},
                Err(e) => {
                    return Err(e);
                },
            }
            i = i + 1;
        }
        Ok(())
    }

    /// Run every plugin's build-end hook, stopping at the first failure.
    /// (What a hook does is the plugin's own; an empty chain cannot fail.)
    pub fn run_build_end(&self) -> (r: Result<(), String>)
        ensures
            self.plugins@.len() == 0 ==> r is Ok,
    {
        let mut i: usize = 0;
        while i < self.plugins.len()
            decreases self.plugins.len() - i,
        {
            match self.plugins[i].build_end(&self.context) {
                Ok(_) => {},
                Err(e) => {
                    return Err(e);
                },
            }
            i = i + 1;
        }
        Ok(())
    }

    /// Ask the plugins to resolve a specifier, in registration order. The
    /// first answer that is not `Skip` ends the chain: the plugins after it
    /// are not consulted. `Skip` means no plugin had an opinion. What each
    /// plugin answers is its own; whatever the answers are, the result is
    /// the single-answer rule applied to the answers received, of which all
    /// but possibly the last are `Skip`.
    pub fn resolve_id(&self, specifier: &str, importer: Option<&str>) -> (r: Result<
        ResolveResult,
        String,
    >)
        ensures
            self.plugins@.len() == 0 ==> (r matches Ok(a) && a is Skip),
            r matches Ok(a) ==> exists|answers: Seq<ResolveResult>|
                {
                    &&& answers.len() <= self.plugins@.len()
                    &&& (forall|q: int| 0 <= q < answers.len() - 1 ==> answers[q] is Skip)
                    &&& a == first_answer_spec(answers, 0)
                },
    {
        let mut answers: Vec<ResolveResult> = Vec::new();
        let mut i: usize = 0;
        while i < self.plugins.len()
            invariant
                i <= self.plugins@.len(),
                answers@.len() == i,
                forall|q: int| 0 <= q < i ==> answers@[q] is Skip,
            decreases self.plugins.len() - i,
        {
            match self.plugins[i].resolve_id(specifier, importer, &self.context) {
                Ok(a) => {
                    let stop = match &a {
                        ResolveResult::Skip => false,
                        _ => true,
                    };
                    answers.push(a);
                    if stop {
                        let decided = first_resolve_answer(&answers);
                        proof {
                            assert(answers@.len() <= self.plugins@.len());
                            assert(forall|q: int|
                                0 <= q < answers@.len() - 1 ==> answers@[q] is Skip);
                        }
                        return Ok(decided);
                    }
                },
                Err(e) => {
                    return Err(e);
                },
            }
            i = i + 1;
        }
        let decided = first_resolve_answer(&answers);
        proof {
            if self.plugins@.len() == 0 {
                assert(decided is Skip);
            }
            assert(forall|q: int| 0 <= q < answers@.len() - 1 ==> answers@[q] is Skip);
        }
        Ok(decided)
    }

    /// Ask the plugins to load a module, in registration order; the first
    /// answer that is not `Skip` ends the chain, and the plugins after it
    /// are not consulted. `Skip` means no plugin supplied content — the
    /// caller then reads the snapshot itself. The result is the
    /// single-answer rule applied to the answers received.
    pub fn load(&self, id: &str) -> (r: Result<LoadResult, String>)
        ensures
            self.plugins@.len() == 0 ==> (r matches Ok(a) && a is Skip),
            r matches Ok(a) ==> exists|answers: Seq<LoadResult>|
                {
                    &&& answers.len() <= self.plugins@.len()
                    &&& (forall|q: int| 0 <= q < answers.len() - 1 ==> answers[q] is Skip)
                    &&& a == first_load_spec(answers, 0)
                },
    {
        let mut answers: Vec<LoadResult> = Vec::new();
        let mut i: usize = 0;
        while i < self.plugins.len()
            invariant
                i <= self.plugins@.len(),
                answers@.len() == i,
                forall|q: int| 0 <= q < i ==> answers@[q] is Skip,
            decreases self.plugins.len() - i,
        {
            match self.plugins[i].load(id, &self.context) {
                Ok(a) => {
                    let stop = match &a {
                        LoadResult::Skip => false,
                        _ => true,
                    };
                    answers.push(a);
                    if stop {
                        let decided = first_load_answer(&answers);
                        proof {
                            assert(answers@.len() <= self.plugins@.len());
                            assert(forall|q: int|
                                0 <= q < answers@.len() - 1 ==> answers@[q] is Skip);
                        }
                        return Ok(decided);
                    }
                },
                Err(e) => {
                    return Err(e);
                },
            }
            i = i + 1;
        }
        let decided = first_load_answer(&answers);
        proof {
            if self.plugins@.len() == 0 {
                assert(decided is Skip);
            }
            assert(forall|q: int| 0 <= q < answers@.len() - 1 ==> answers@[q] is Skip);
        }
        Ok(decided)
    }

    /// Run every transform hook in registration order over the code, each
    /// plugin seeing the previous plugin's output; a later source map
    /// overwrites an earlier one. Transformation never short-circuits: on
    /// success the result is the composition fold of exactly one answer per
    /// registered plugin, and an empty chain hands the code back unchanged
    /// with no map.
    pub fn transform(&self, code: &str, id: &str) -> (r: Result<(String, Option<String>), String>)
        ensures
            self.plugins@.len() == 0 ==> (r matches Ok(p) && p.0@ == code@ && p.1 is None),
            r matches Ok(p) ==> exists|answers: Seq<TransformResult>|
                answers.len() == self.plugins@.len() && (p.0@, opt_view(p.1))
                    == fold_transforms_spec(answers, 0, code@, None),
    {
        let mut current_code = String::new();
        current_code.append(code);
        let mut current_map: Option<String> = None;
        let ghost mut answers: Seq<TransformResult> = Seq::empty();
        let mut i: usize = 0;
        while i < self.plugins.len()
            invariant
                i <= self.plugins@.len(),
                answers.len() == i,
                (current_code@, opt_view(current_map)) == fold_transforms_spec(
                    answers,
                    0,
                    code@,
                    None,
                ),
            decreases self.plugins.len() - i,
        {
            match self.plugins[i].transform(current_code.as_str(), id, &self.context) {
                Ok(a) => {
                    let ghost av = a;
                    proof {
                        lemma_fold_push(answers, av, 0, code@, None);
                    }
                    let stepped = apply_transform_step(a, current_code, current_map);
                    current_code = stepped.0;
                    current_map = stepped.1;
                    proof {
                        answers = answers.push(av);
                    }
                },
                Err(e) => {
                    return Err(e);
                },
            }
            i = i + 1;
        }
        Ok((current_code, current_map))
    }
}

/// True iff `p` stands at the end of `s`.
pub open spec fn is_suffix_of(p: Seq<char>, s: Seq<char>) -> bool {
    p.len() <= s.len() && s.subrange(s.len() - p.len(), s.len() as int) == p
}

fn chars_end_with(s: &Vec<char>, p: &Vec<char>) -> (r: bool)
    ensures
        r == is_suffix_of(p@, s@),
{
    if p.len() > s.len() {
        return false;
    }
    let tail = crate::graph::slice_chars(s, s.len() - p.len(), s.len());
    chars_eq(&tail, p)
}

/// JSON plugin: transforms `.json` modules to ES modules, failing on text
/// that is not valid JSON.
pub struct JsonPlugin;

impl Plugin for JsonPlugin {
    fn name(&self) -> &str {
        "json"
    }

    fn build_start(&self, _ctx: &PluginContext) -> Result<(), String> {
        Ok(())
    }

    fn build_end(&self, _ctx: &PluginContext) -> Result<(), String> {
        Ok(())
    }

    fn resolve_id(&self, _specifier: &str, _importer: Option<&str>, _ctx: &PluginContext) -> Result<
        ResolveResult,
        String,
    > {
        Ok(ResolveResult::Skip)
    }

    fn load(&self, _id: &str, _ctx: &PluginContext) -> Result<LoadResult, String> {
        Ok(LoadResult::Skip)
    }

    fn transform(&self, code: &str, id: &str, _ctx: &PluginContext) -> Result<
        TransformResult,
        String,
    > {
        let idv = str_to_chars(id);
        let ext = str_to_chars(".json");
        if !chars_end_with(&idv, &ext) {
            return Ok(TransformResult::Skip);
        }
        if !json_is_valid(code) {
            let mut msg = String::new();
            msg.append("invalid JSON in ");
            msg.append(id);
            return Err(msg);
        }
        let mut out = String::new();
        out.append("export default ");
        out.append(code);
        out.append(";");
        Ok(TransformResult::Transformed { code: out, map: None })
    }
}

/// Virtual module plugin: serves modules defined in memory, resolving them
/// under a reserved prefix.
pub struct VirtualPlugin {
    /// The virtual modules, as id → content pairs.
    pub modules: Vec<(String, String)>,
}

impl VirtualPlugin {
    /// An empty virtual module table.
    pub fn new() -> (r: Self)
        ensures
            r.modules@.len() == 0,
    {
        VirtualPlugin { modules: Vec::new() }
    }

    /// Define a virtual module.
    pub fn add_module(&mut self, id: &str, content: &str)
        ensures
            final(self).modules@.len() == old(self).modules@.len() + 1,
            final(self).modules@[old(self).modules@.len() as int].0@ == id@,
            final(self).modules@[old(self).modules@.len() as int].1@ == content@,
            forall|k: int|
                0 <= k < old(self).modules@.len() ==> final(self).modules@[k] == old(
                    self,
                ).modules@[k],
    {
        let mut idc = String::new();
        idc.append(id);
        let mut cc = String::new();
        cc.append(content);
        self.modules.push((idc, cc));
    }

    /// The registered content under an id, if any; the first registration
    /// of an id wins.
    pub open spec fn lookup_spec(self, id: Seq<char>) -> Option<Seq<char>> {
        table_lookup(self.modules@, id, 0)
    }

    fn lookup(&self, id: &str) -> (r: Option<String>)
        ensures
            match r {
                Some(v) => self.lookup_spec(id@) == Some(v@),
                None => self.lookup_spec(id@) is None,
            },
    {
        let mut i: usize = 0;
        while i < self.modules.len()
            invariant
                i <= self.modules@.len(),
                table_lookup(self.modules@, id@, 0) == table_lookup(self.modules@, id@, i as int),
            decreases self.modules.len() - i,
        {
            if str_eq(self.modules[i].0.as_str(), id) {
                return Some(self.modules[i].1.clone());
            }
            i = i + 1;
        }
        None
    }

    /// Resolve a specifier against the virtual table: a registered
    /// specifier answers `Resolved` under the reserved prefix, anything
    /// else `Skip`; this plugin never answers `External`.
    pub fn resolve_virtual(&self, specifier: &str) -> (r: ResolveResult)
        ensures
            match r {
                ResolveResult::Resolved(p) => self.lookup_spec(specifier@) is Some && p@
                    == "\u{0}virtual:"@ + specifier@,
                ResolveResult::Skip => self.lookup_spec(specifier@) is None,
                ResolveResult::External => false,
            },
    {
        match self.lookup(specifier) {
            Some(_) => {
                let mut out = String::new();
                out.append("\u{0}virtual:");
                out.append(specifier);
                ResolveResult::Resolved(out)
            },
            None => ResolveResult::Skip,
        }
    }

    /// Load an id of the reserved virtual form: the registered content,
    /// with a JavaScript loader hint; any other id is passed on.
    pub fn load_virtual(&self, id: &str) -> (r: LoadResult)
        ensures
            match r {
                LoadResult::Loaded { content, loader } => virtual_load_spec(*self, id@) == Some(
                    content@,
                ) && (loader matches Some(l) && l@ == "js"@),
                LoadResult::Skip => virtual_load_spec(*self, id@) is None,
            },
    {
        let idv = str_to_chars(id);
        let prefix = str_to_chars("\u{0}virtual:");
        if chars_start_with(&idv, &prefix) {
            let stripped = crate::graph::slice_chars(&idv, prefix.len(), idv.len());
            let key = chars_to_string(&stripped);
            proof {
                assert(key@ == id@.skip("\u{0}virtual:"@.len() as int));
            }
            match self.lookup(key.as_str()) {
                Some(content) => {
                    let mut loader = String::new();
                    loader.append("js");
                    return LoadResult::Loaded { content, loader: Some(loader) };
                },
                None => {},
            }
        }
        LoadResult::Skip
    }
}

/// The registered content under an id, scanning the table from position
/// `i`; the first registration of an id wins.
pub open spec fn table_lookup(t: Seq<(String, String)>, id: Seq<char>, i: int) -> Option<
    Seq<char>,
>
    decreases t.len() - i,
{
    if i < 0 || i >= t.len() {
        None
    } else if t[i].0@ == id {
        Some(t[i].1@)
    } else {
        table_lookup(t, id, i + 1)
    }
}

/// What the virtual load hook serves for an id: the content registered
/// under the id's suffix, provided the id carries the reserved prefix.
pub open spec fn virtual_load_spec(vp: VirtualPlugin, id: Seq<char>) -> Option<Seq<char>> {
    if is_prefix_of("\u{0}virtual:"@, id) {
        vp.lookup_spec(id.skip("\u{0}virtual:"@.len() as int))
    } else {
        None
    }
}

/// Resolve-then-load round-trips: the id the resolve hook hands out for a
/// registered specifier loads exactly the registered content.
pub proof fn lemma_virtual_roundtrip(vp: VirtualPlugin, specifier: Seq<char>, content: Seq<char>)
    requires
        vp.lookup_spec(specifier) == Some(content),
    ensures
        virtual_load_spec(vp, "\u{0}virtual:"@ + specifier) == Some(content),
{
    let pre = "\u{0}virtual:"@;
    let id = pre + specifier;
    assert(id.take(pre.len() as int) =~= pre);
    assert(is_prefix_of(pre, id));
    assert(id.skip(pre.len() as int) =~= specifier);
}

impl Default for VirtualPlugin {
    /// An empty virtual module table.
    fn default() -> (r: Self)
        ensures
            r.modules@.len() == 0,
    {
        VirtualPlugin::new()
    }
}

impl Plugin for VirtualPlugin {
    fn name(&self) -> &str {
        "virtual"
    }

    fn build_start(&self, _ctx: &PluginContext) -> Result<(), String> {
        Ok(())
    }

    fn build_end(&self, _ctx: &PluginContext) -> Result<(), String> {
        Ok(())
    }

    fn resolve_id(&self, specifier: &str, _importer: Option<&str>, _ctx: &PluginContext) -> Result<
        ResolveResult,
        String,
    > {
        Ok(self.resolve_virtual(specifier))
    }

    fn transform(&self, _code: &str, _id: &str, _ctx: &PluginContext) -> Result<
        TransformResult,
        String,
    > {
        Ok(TransformResult::Skip)
    }

    fn load(&self, id: &str, _ctx: &PluginContext) -> Result<LoadResult, String> {
        Ok(self.load_virtual(id))
    }
}

} // verus!
