//! Handler strings turned into source locations, and their resolution
//! against the set of files that exist.
use crate::manifest::{FunctionMod, FunctionTy};
use vstd::prelude::*;

verus! {

/// Marks a location whose file has been found.
#[derive(PartialEq, Eq, Structural, Debug, Clone, Copy)]
pub struct Resolved;

/// Marks a location that has not been checked against the files.
#[derive(PartialEq, Eq, Structural, Debug, Clone, Copy)]
pub struct Unresolved;

/// Why a function's handler could not be located.
#[derive(Debug, Clone, PartialEq, Eq)]
pub enum Error {
    /// The handler of the function with this key holds no `.`.
    InvalidHandler(String),
    /// No file with a known extension exists for the function; `path` is
    /// the first one tried.
    HandlerFileNotFound { function: String, path: String },
}

/// The export `func` of the function `key`, at `path`. While `Unresolved`,
/// `path` has no extension; once `Resolved`, it names a file that exists.
#[derive(Debug, Clone, PartialEq, Eq)]
pub struct FunctionRef<S> {
    pub func: String,
    pub key: String,
    pub path: String,
    pub status: S,
}

/// Index of the first `.` of `h` at or after `from`, or the length of `h`.
pub open spec fn dot_index(h: Seq<char>, from: int) -> int
    decreases h.len() - from,
{
    if from >= h.len() {
        h.len() as int
    } else if h[from] == '.' {
        from
    } else {
        dot_index(h, from + 1)
    }
}

/// The location of a module under the source root.
pub open spec fn source_path(module: Seq<char>) -> Seq<char> {
    seq!['s', 'r', 'c', '/'] + module
}

/// The file extensions tried, highest priority first.
pub open spec fn extension(i: int) -> Seq<char> {
    if i == 0 {
        seq!['j', 's', 'x']
    } else if i == 1 {
        seq!['t', 's', 'x']
    } else if i == 2 {
        seq!['t', 's']
    } else {
        seq!['j', 's']
    }
}

/// `p` under the directory `dir`.
pub open spec fn join_path(dir: Seq<char>, p: Seq<char>) -> Seq<char> {
    if dir.len() == 0 {
        p
    } else if dir.last() == '/' {
        dir + p
    } else {
        dir.push('/') + p
    }
}

/// The `i`th file tried for the location `p` under `dir`.
pub open spec fn candidate(dir: Seq<char>, p: Seq<char>, i: int) -> Seq<char> {
    join_path(dir, p.push('.') + extension(i))
}

/// Whether `files` holds `p`.
pub open spec fn has_file(files: Seq<String>, p: Seq<char>) -> bool {
    exists|i: int| 0 <= i < files.len() && (#[trigger] files[i])@ == p
}

proof fn lemma_dot_index_bounds(h: Seq<char>, from: int)
    requires
        0 <= from <= h.len(),
    ensures
        from <= dot_index(h, from) <= h.len(),
        forall|x: int| from <= x < dot_index(h, from) ==> h[x] != '.',
        dot_index(h, from) < h.len() ==> h[dot_index(h, from)] == '.',
    decreases h.len() - from,
{
    if from < h.len() && h[from] != '.' {
        lemma_dot_index_bounds(h, from + 1);
    }
}

fn extension_str(i: usize) -> (r: &'static str)
    requires
        i < 4,
    ensures
        r@ == extension(i as int),
{
    if i == 0 {
        proof {
            reveal_strlit("jsx");
        }
        "jsx"
    } else if i == 1 {
        proof {
            reveal_strlit("tsx");
        }
        "tsx"
    } else if i == 2 {
        proof {
            reveal_strlit("ts");
        }
        "ts"
    } else {
        proof {
            reveal_strlit("js");
        }
        "js"
    }
}

fn join_exec(dir: &str, p: &str) -> (r: String)
    ensures
        r@ == join_path(dir@, p@),
{
    let n = dir.unicode_len();
    let mut out = String::from_str(dir);
    if n > 0 && dir.get_char(n - 1) != '/' {
        out.append("/");
        proof {
            reveal_strlit("/");
        }
    }
    out.append(p);
    out
}

fn candidate_exec(dir: &str, p: &String, i: usize) -> (r: String)
    requires
        i < 4,
    ensures
        r@ == candidate(dir@, p@, i as int),
{
    let mut file = p.clone();
    file.append(".");
    file.append(extension_str(i));
    proof {
        reveal_strlit(".");
        assert(file@ =~= p@.push('.') + extension(i as int));
    }
    join_exec(dir, file.as_str())
}

fn files_contain(files: &Vec<String>, p: &String) -> (r: bool)
    ensures
        r == has_file(files@, p@),
{
    let mut i: usize = 0;
    while i < files.len()
        invariant
            i <= files@.len(),
            forall|x: int| 0 <= x < i ==> (#[trigger] files@[x])@ != p@,
        decreases files@.len() - i,
    {
        if files[i] == *p {
            return true;
        }
        i = i + 1;
    }
    false
}

/// The location of a handler `module.export` for the function `key`: the
/// module under the source root, with no extension, and the export. The
/// module is what precedes the first `.`, the export what follows it.
pub fn parse_handler(handler: &str, key: &str) -> (r: Result<FunctionRef<Unresolved>, Error>)
    ensures
        dot_index(handler@, 0) < handler@.len() <==> r is Ok,
        match r {
            Ok(loc) => {
                &&& loc.path@ == source_path(handler@.take(dot_index(handler@, 0)))
                &&& loc.func@ == handler@.skip(dot_index(handler@, 0) + 1)
                &&& loc.key@ == key@
            },
            Err(e) => match e {
                Error::InvalidHandler(k) => k@ == key@,
                _ => false,
            },
        },
{
    let n = handler.unicode_len();
    let mut d: usize = 0;
    while d < n && handler.get_char(d) != '.'
        invariant
            n == handler@.len(),
            d <= n,
            dot_index(handler@, d as int) == dot_index(handler@, 0),
        decreases n - d,
    {
        d = d + 1;
    }
    proof {
        lemma_dot_index_bounds(handler@, d as int);
        assert(d == dot_index(handler@, 0));
    }
    if d == n {
        return Err(Error::InvalidHandler(String::from_str(key)));
    }
    let module = handler.substring_char(0, d);
    let func = handler.substring_char(d + 1, n);
    let mut path = String::from_str("src/");
    path.append(module);
    proof {
        reveal_strlit("src/");
        assert(path@ =~= source_path(handler@.take(d as int)));
        assert(func@ =~= handler@.skip(d + 1));
    }
    Ok(FunctionRef::new(func, key, path))
}

impl<S> FunctionRef<S> {
    /// Where the function's source is.
    pub fn path(&self) -> (r: &str)
        ensures
            r@ == self.path@,
    {
        self.path.as_str()
    }

    /// The name of the exported function.
    pub fn func(&self) -> (r: &str)
        ensures
            r@ == self.func@,
    {
        self.func.as_str()
    }
}

impl FunctionRef<Unresolved> {
    /// An unresolved location.
    pub fn new(func: &str, key: &str, path: String) -> (r: Self)
        ensures
            r.func@ == func@,
            r.key@ == key@,
            r.path == path,
    {
        FunctionRef {
            func: String::from_str(func),
            key: String::from_str(key),
            path,
            status: Unresolved,
        }
    }

    /// The location of a declared function's handler.
    pub fn try_from(func_handler: &FunctionMod) -> (r: Result<Self, Error>)
        ensures
            dot_index(func_handler.handler@, 0) < func_handler.handler@.len() <==> r is Ok,
            match r {
                Ok(loc) => {
                    &&& loc.path@ == source_path(
                        func_handler.handler@.take(dot_index(func_handler.handler@, 0)),
                    )
                    &&& loc.func@ == func_handler.handler@.skip(
                        dot_index(func_handler.handler@, 0) + 1,
                    )
                    &&& loc.key@ == func_handler.key@
                },
                Err(e) => match e {
                    Error::InvalidHandler(k) => k@ == func_handler.key@,
                    _ => false,
                },
            },
    {
        parse_handler(func_handler.handler.as_str(), func_handler.key.as_str())
    }

    /// Resolves the location against the files that exist: the first of the
    /// extensions `jsx`, `tsx`, `ts`, `js` whose file under `working_dir` is
    /// in `paths` gives the resolved path. When none is, the error names the
    /// first file tried.
    pub fn try_resolve(self, paths: &Vec<String>, working_dir: &str) -> (r: Result<
        FunctionRef<Resolved>,
        Error,
    >)
        ensures
            (exists|i: int| 0 <= i < 4 && has_file(paths@, candidate(working_dir@, self.path@, i)))
                <==> r is Ok,
            match r {
                Ok(res) => exists|i: int|
                    0 <= i < 4 && has_file(paths@, candidate(working_dir@, self.path@, i)) && (forall|
                        j: int,
                    |
                        0 <= j < i ==> !has_file(paths@, #[trigger] candidate(working_dir@, self.path@, j)))
                        && res.path@ == candidate(working_dir@, self.path@, i) && res.func == self.func
                        && res.key == self.key,
                Err(e) => match e {
                    Error::HandlerFileNotFound { function, path } => function == self.func
                        && path@ == candidate(working_dir@, self.path@, 0),
                    _ => false,
                },
            },
    {
        let mut i: usize = 0;
        while i < 4
            invariant
                i <= 4,
                forall|j: int| 0 <= j < i ==> !has_file(paths@, #[trigger] candidate(working_dir@, self.path@, j)),
            decreases 4 - i,
        {
            let c = candidate_exec(working_dir, &self.path, i);
            if files_contain(paths, &c) {
                return Ok(FunctionRef { func: self.func, key: self.key, path: c, status: Resolved });
            }
            i = i + 1;
        }
        let first = candidate_exec(working_dir, &self.path, 0);
        Err(Error::HandlerFileNotFound { function: self.func, path: first })
    }
}

impl FunctionRef<Resolved> {
    /// The export name and the path of the file that holds it.
    pub fn into_func_path(self) -> (r: (String, String))
        ensures
            r.0 == self.func,
            r.1 == self.path,
    {
        (self.func, self.path)
    }
}

/// Whether `r` is what resolving the handler of `f` against `paths` under
/// `dir` gives: an invalid-handler error when the handler holds no `.`;
/// otherwise the first candidate file that exists, or a not-found error
/// naming the first candidate.
pub open spec fn resolution_matches(
    f: FunctionMod,
    paths: Seq<String>,
    dir: Seq<char>,
    r: Result<FunctionRef<Resolved>, Error>,
) -> bool {
    let h = f.handler@;
    let d = dot_index(h, 0);
    let p = source_path(h.take(d));
    if d >= h.len() {
        match r {
            Err(Error::InvalidHandler(k)) => k@ == f.key@,
            _ => false,
        }
    } else {
        match r {
            Ok(res) => exists|i: int|
                0 <= i < 4 && has_file(paths, candidate(dir, p, i)) && (forall|j: int|
                    0 <= j < i ==> !has_file(paths, #[trigger] candidate(dir, p, j)))
                    && res.path@ == candidate(dir, p, i) && res.func@ == h.skip(d + 1)
                    && res.key@ == f.key@,
            Err(Error::HandlerFileNotFound { function, path }) => (forall|i: int|
                0 <= i < 4 ==> !has_file(paths, #[trigger] candidate(dir, p, i)))
                && function@ == h.skip(d + 1) && path@ == candidate(dir, p, 0),
            _ => false,
        }
    }
}

/// Whether two classified values are reached the same way.
pub open spec fn same_tag<A, B>(a: FunctionTy<A>, b: FunctionTy<B>) -> bool {
    (a is Invokable && b is Invokable) || (a is WebTrigger && b is WebTrigger)
}

/// Resolves the handler of `f` against `paths` under `working_dir`.
pub fn resolve_function(f: &FunctionMod, paths: &Vec<String>, working_dir: &str) -> (r: Result<
    FunctionRef<Resolved>,
    Error,
>)
    ensures
        resolution_matches(*f, paths@, working_dir@, r),
{
    match FunctionRef::try_from(f) {
        Ok(loc) => loc.try_resolve(paths, working_dir),
        Err(e) => Err(e),
    }
}

/// Resolves every classified function on its own, keeping its tag: a failure
/// of one does not stop the others.
pub fn resolve_functions(
    functions: &Vec<FunctionTy<FunctionMod>>,
    paths: &Vec<String>,
    working_dir: &str,
) -> (r: Vec<FunctionTy<Result<FunctionRef<Resolved>, Error>>>)
    ensures
        r@.len() == functions@.len(),
        forall|i: int|
            0 <= i < r@.len() ==> same_tag(functions@[i], #[trigger] r@[i]) && resolution_matches(
                functions@[i].inner(),
                paths@,
                working_dir@,
                r@[i].inner(),
            ),
{
    let mut out: Vec<FunctionTy<Result<FunctionRef<Resolved>, Error>>> = Vec::new();
    let mut i: usize = 0;
    while i < functions.len()
        invariant
            i <= functions@.len(),
            out@.len() == i,
            forall|x: int|
                0 <= x < i ==> same_tag(functions@[x], #[trigger] out@[x]) && resolution_matches(
                    functions@[x].inner(),
                    paths@,
                    working_dir@,
                    out@[x].inner(),
                ),
        decreases functions@.len() - i,
    {
        let item = match &functions[i] {
            FunctionTy::Invokable(f) => FunctionTy::Invokable(resolve_function(f, paths, working_dir)),
            FunctionTy::WebTrigger(f) => FunctionTy::WebTrigger(resolve_function(f, paths, working_dir)),
        };
        out.push(item);
        i = i + 1;
    }
    out
}

} // verus!
