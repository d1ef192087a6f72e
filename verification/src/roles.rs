//! Roles and their path policies: role definitions, glob compilation,
//! semantic path categories with `{{category}}` macro expansion, and the
//! merged category map that projects can override.

use vstd::prelude::*;
use crate::error::CaptainHookError;
use crate::globs;
use crate::text;

verus! {

use vstd::string::StringExecFns;

/// Raw path policy: string globs, before compilation.
pub struct PathPolicyConfig {
    pub allow_write: Vec<String>,
    pub deny_write: Vec<String>,
    pub allow_read: Vec<String>,
}

/// A role from the roles file.
pub struct RoleDefinition {
    /// Role name, e.g. `coder`.
    pub name: String,
    /// Natural-language description, shown to the supervisor.
    pub description: String,
    /// The role's path policy.
    pub paths: PathPolicyConfig,
}

/// Copy a vector of strings.
pub fn clone_string_vec(v: &Vec<String>) -> (r: Vec<String>)
    ensures
        r@ == v@,
{
    let mut r: Vec<String> = Vec::new();
    let mut i: usize = 0;
    while i < v.len()
        invariant
            0 <= i <= v@.len(),
            r@ == v@.subrange(0, i as int),
        decreases v@.len() - i,
    {
        r.push(v[i].clone());
        assert(r@ =~= v@.subrange(0, i + 1));
        i = i + 1;
    }
    assert(r@ =~= v@);
    r
}

impl Clone for PathPolicyConfig {
    fn clone(&self) -> (res: Self)
        ensures
            res.allow_write@ == self.allow_write@,
            res.deny_write@ == self.deny_write@,
            res.allow_read@ == self.allow_read@,
    {
        PathPolicyConfig {
            allow_write: clone_string_vec(&self.allow_write),
            deny_write: clone_string_vec(&self.deny_write),
            allow_read: clone_string_vec(&self.allow_read),
        }
    }
}

impl Clone for RoleDefinition {
    fn clone(&self) -> (res: Self)
        ensures
            res.name == self.name,
            res.description == self.description,
            res.paths.allow_write@ == self.paths.allow_write@,
            res.paths.deny_write@ == self.paths.deny_write@,
            res.paths.allow_read@ == self.paths.allow_read@,
    {
        RoleDefinition {
            name: self.name.clone(),
            description: self.description.clone(),
            paths: self.paths.clone(),
        }
    }
}

/// Compiled path policy: glob sets ready for matching.
pub struct CompiledPathPolicy {
    pub allow_write: globset::GlobSet,
    pub deny_write: globset::GlobSet,
    pub allow_read: globset::GlobSet,
    pub sensitive_ask_write: globset::GlobSet,
}

impl CompiledPathPolicy {
    /// Compile a raw policy plus the project's sensitive patterns. Each
    /// compiled set holds exactly the patterns of its list; a bad glob
    /// pattern fails the compilation.
    pub fn compile(config: &PathPolicyConfig, sensitive_patterns: &Vec<String>) -> (r: Result<
        Self,
        CaptainHookError,
    >)
        ensures
            r matches Ok(p) ==> {
                &&& globs::set_patterns(p.allow_write) == config.allow_write.deep_view()
                &&& globs::set_patterns(p.deny_write) == config.deny_write.deep_view()
                &&& globs::set_patterns(p.allow_read) == config.allow_read.deep_view()
                &&& globs::set_patterns(p.sensitive_ask_write) == sensitive_patterns.deep_view()
            },
            r is Ok <==> globs::list_compilable(config.allow_write.deep_view())
                && globs::list_compilable(config.deny_write.deep_view())
                && globs::list_compilable(config.allow_read.deep_view())
                && globs::list_compilable(sensitive_patterns.deep_view()),
            r matches Err(e) ==> e is GlobPattern,
            r matches Err(e) ==> (e matches CaptainHookError::GlobPattern { pattern, reason }
                ==> pattern@.len() == 0 || ((crate::path_policy::view_mem(
                config.allow_write@,
                pattern@,
            ) || crate::path_policy::view_mem(config.deny_write@, pattern@)
                || crate::path_policy::view_mem(config.allow_read@, pattern@)
                || crate::path_policy::view_mem(sensitive_patterns@, pattern@))
                && !globs::glob_pattern_ok(pattern@))),
    {
        let allow_write = match globs::build_globset(&config.allow_write) {
            Ok(s) => s,
            Err(e) => {
                proof {
                    lift_glob_error(&e, &config.allow_write);
                }
                return Err(e);
            },
        };
        let deny_write = match globs::build_globset(&config.deny_write) {
            Ok(s) => s,
            Err(e) => {
                proof {
                    lift_glob_error(&e, &config.deny_write);
                }
                return Err(e);
            },
        };
        let allow_read = match globs::build_globset(&config.allow_read) {
            Ok(s) => s,
            Err(e) => {
                proof {
                    lift_glob_error(&e, &config.allow_read);
                }
                return Err(e);
            },
        };
        let sensitive_ask_write = match globs::build_globset(sensitive_patterns) {
            Ok(s) => s,
            Err(e) => {
                proof {
                    lift_glob_error(&e, sensitive_patterns);
                }
                return Err(e);
            },
        };
        Ok(CompiledPathPolicy { allow_write, deny_write, allow_read, sensitive_ask_write })
    }
}


/// A glob error from one list either carries no pattern (a whole-set
/// build failure) or names an invalid pattern of that list.
proof fn lift_glob_error(e: &CaptainHookError, patterns: &Vec<String>)
    requires
        (e matches CaptainHookError::GlobPattern { pattern, reason } ==> (exists|i: int|
            {
                &&& 0 <= i < patterns@.len()
                &&& pattern@ == (#[trigger] patterns@[i])@
                &&& !globs::glob_pattern_ok(patterns@[i]@)
                &&& forall|j: int|
                    0 <= j < i ==> globs::glob_pattern_ok((#[trigger] patterns@[j])@)
            }) || (pattern@.len() == 0 && (forall|i: int|
            0 <= i < patterns@.len() ==> globs::glob_pattern_ok((#[trigger] patterns@[i])@))
            && !globs::globs_buildable(patterns.deep_view()))),
    ensures
        e matches CaptainHookError::GlobPattern { pattern, reason } ==> pattern@.len() == 0 || (
        crate::path_policy::view_mem(patterns@, pattern@) && !globs::glob_pattern_ok(pattern@)),
{
    match e {
        CaptainHookError::GlobPattern { pattern, reason } => {
            if pattern@.len() != 0 {
                let i = choose|i: int|
                    {
                        &&& 0 <= i < patterns@.len()
                        &&& pattern@ == (#[trigger] patterns@[i])@
                        &&& !globs::glob_pattern_ok(patterns@[i]@)
                        &&& forall|j: int|
                            0 <= j < i ==> globs::glob_pattern_ok((#[trigger] patterns@[j])@)
                    };
                assert(patterns@[i]@ == pattern@);
                assert(crate::path_policy::view_mem(patterns@, pattern@));
            }
        },
        _ => {},
    }
}

/// The value of a category map: name and patterns of each entry, in order.
pub open spec fn cat_view(entries: Seq<(String, Vec<String>)>) -> Seq<(Seq<char>, Seq<Seq<char>>)> {
    entries.map_values(|e: (String, Vec<String>)| (e.0@, e.1.deep_view()))
}

/// The patterns of the first entry with the given name, if any.
pub open spec fn find_in_view(
    cv: Seq<(Seq<char>, Seq<Seq<char>>)>,
    name: Seq<char>,
) -> Option<Seq<Seq<char>>>
    decreases cv.len(),
{
    if cv.len() == 0 {
        None
    } else if cv[0].0 == name {
        Some(cv[0].1)
    } else {
        find_in_view(cv.drop_first(), name)
    }
}

/// Semantic path categories: named groups of glob patterns, looked up by
/// first match on the name.
pub struct CategoryMap {
    pub entries: Vec<(String, Vec<String>)>,
}

impl CategoryMap {
    /// The view of this map's entries.
    pub open spec fn view_spec(&self) -> Seq<(Seq<char>, Seq<Seq<char>>)> {
        cat_view(self.entries@)
    }

    /// An empty category map.
    pub fn new() -> (m: CategoryMap)
        ensures
            m.view_spec() == Seq::<(Seq<char>, Seq<Seq<char>>)>::empty(),
    {
        let m = CategoryMap { entries: Vec::new() };
        proof {
            assert(m.view_spec() =~= Seq::<(Seq<char>, Seq<Seq<char>>)>::empty());
        }
        m
    }

    /// Append one category.
    pub fn push_entry(&mut self, name: &str, patterns: Vec<String>)
        ensures
            final(self).view_spec() == old(self).view_spec().push(
                (name@, patterns.deep_view()),
            ),
    {
        let ghost before = self.view_spec();
        self.entries.push((String::from_str(name), patterns));
        proof {
            assert(self.view_spec() =~~= before.push((name@, patterns.deep_view())));
        }
    }

    /// The patterns of the category with this name, if present.
    pub fn get(&self, name: &str) -> (r: Option<&Vec<String>>)
        ensures
            match r {
                Some(v) => find_in_view(self.view_spec(), name@) == Some(v.deep_view()),
                None => find_in_view(self.view_spec(), name@) is None,
            },
    {
        let ghost cv = self.view_spec();
        let name_s = String::from_str(name);
        proof {
            assert(cv.skip(0) =~= cv);
        }
        let mut i: usize = 0;
        while i < self.entries.len()
            invariant
                0 <= i <= self.entries@.len(),
                cv == self.view_spec(),
                name_s@ == name@,
                find_in_view(cv, name@) == find_in_view(cv.skip(i as int), name@),
            decreases self.entries@.len() - i,
        {
            proof {
                assert(cv.skip(i as int)[0] == cv[i as int]);
                assert(cv.skip(i as int).drop_first() =~= cv.skip(i + 1));
            }
            if self.entries[i].0 == name_s {
                assert(cv[i as int].0 == name@);
                return Some(&self.entries[i].1);
            }
            i = i + 1;
        }
        proof {
            assert(cv.skip(i as int) =~= Seq::<(Seq<char>, Seq<Seq<char>>)>::empty());
        }
        None
    }

    /// Whether a category with this name is present.
    pub fn contains_key(&self, name: &str) -> (r: bool)
        ensures
            r == (find_in_view(self.view_spec(), name@) is Some),
    {
        match self.get(name) {
            Some(_) => true,
            None => false,
        }
    }
}

/// Push one literal string onto a string vector.
fn push_s(v: &mut Vec<String>, s: &str)
    ensures
        final(v).deep_view() == old(v).deep_view().push(s@),
{
    v.push(String::from_str(s));
    assert(v.deep_view() =~~= old(v).deep_view().push(s@));
}

/// The built-in default categories, as a value.
pub open spec fn default_categories_spec() -> Seq<(Seq<char>, Seq<Seq<char>>)> {
    seq![
        ("source"@, seq!["src/**"@, "lib/**"@]),
        (
            "tests"@,
            seq![
                "tests/**"@,
                "test-fixtures/**"@,
                "*.test.*"@,
                "*.spec.*"@,
                "*_test.go"@,
                "test_*.py"@,
                "**/test_*.py"@,
                "**/*_test.go"@,
            ],
        ),
        ("docs"@, seq!["docs/**"@]),
        (
            "ci"@,
            seq![".github/**"@, ".gitlab-ci.yml"@, ".circleci/**"@, "Jenkinsfile"@, ".buildkite/**"@],
        ),
        (
            "infra"@,
            seq![
                "*.tf"@,
                "*.tfvars"@,
                "*.hcl"@,
                "terraform/**"@,
                "infra/**"@,
                "pulumi/**"@,
                "cdk/**"@,
                "cloudformation/**"@,
                "ansible/**"@,
                "helm/**"@,
                ".terraform.lock.hcl"@,
            ],
        ),
        (
            "config_files"@,
            seq![
                "Cargo.toml"@,
                "Cargo.lock"@,
                "package.json"@,
                "package-lock.json"@,
                "go.mod"@,
                "go.sum"@,
                "pyproject.toml"@,
                "requirements*.txt"@,
            ],
        ),
        (
            "devops"@,
            seq![
                "Dockerfile*"@,
                "docker-compose*"@,
                ".dockerignore"@,
                "Makefile"@,
                ".eslintrc*"@,
                ".prettierrc*"@,
                ".editorconfig"@,
                "tsconfig*"@,
                ".*rc"@,
                ".*rc.*"@,
                ".tool-versions"@,
                ".nvmrc"@,
                ".python-version"@,
                ".ruby-version"@,
                "rust-toolchain.toml"@,
                "lefthook.yml"@,
                ".husky/**"@,
                ".pre-commit-config.yaml"@,
            ],
        ),
        (
            "test_config"@,
            seq!["jest.config.*"@, "pytest.ini"@, "vitest.config.*"@, ".coveragerc"@, "codecov.yml"@],
        ),
        ("research_output"@, seq!["docs/research/**"@]),
        ("architecture_output"@, seq!["docs/architecture/**"@, "docs/adr/**"@]),
        ("plans_output"@, seq!["docs/plans/**"@]),
        ("reviews_output"@, seq!["docs/reviews/**"@]),
        ("security_reviews_output"@, seq!["docs/reviews/security/**"@]),
        (
            "docs_output"@,
            seq!["docs/**"@, "*.md"@, "*.aisp"@, "CHANGELOG.md"@, "LICENSE"@],
        ),
    ]
}

/// The built-in default categories. Projects can override any of these in
/// the roles file.
pub fn default_categories() -> (m: CategoryMap)
    ensures
        m.view_spec() == default_categories_spec(),
{
    let mut m = CategoryMap::new();

    let mut v: Vec<String> = Vec::new();
    push_s(&mut v, "src/**");
    push_s(&mut v, "lib/**");
    m.push_entry("source", v);

    let mut v: Vec<String> = Vec::new();
    push_s(&mut v, "tests/**");
    push_s(&mut v, "test-fixtures/**");
    push_s(&mut v, "*.test.*");
    push_s(&mut v, "*.spec.*");
    push_s(&mut v, "*_test.go");
    push_s(&mut v, "test_*.py");
    push_s(&mut v, "**/test_*.py");
    push_s(&mut v, "**/*_test.go");
    m.push_entry("tests", v);

    let mut v: Vec<String> = Vec::new();
    push_s(&mut v, "docs/**");
    m.push_entry("docs", v);

    let mut v: Vec<String> = Vec::new();
    push_s(&mut v, ".github/**");
    push_s(&mut v, ".gitlab-ci.yml");
    push_s(&mut v, ".circleci/**");
    push_s(&mut v, "Jenkinsfile");
    push_s(&mut v, ".buildkite/**");
    m.push_entry("ci", v);

    let mut v: Vec<String> = Vec::new();
    push_s(&mut v, "*.tf");
    push_s(&mut v, "*.tfvars");
    push_s(&mut v, "*.hcl");
    push_s(&mut v, "terraform/**");
    push_s(&mut v, "infra/**");
    push_s(&mut v, "pulumi/**");
    push_s(&mut v, "cdk/**");
    push_s(&mut v, "cloudformation/**");
    push_s(&mut v, "ansible/**");
    push_s(&mut v, "helm/**");
    push_s(&mut v, ".terraform.lock.hcl");
    m.push_entry("infra", v);

    let mut v: Vec<String> = Vec::new();
    push_s(&mut v, "Cargo.toml");
    push_s(&mut v, "Cargo.lock");
    push_s(&mut v, "package.json");
    push_s(&mut v, "package-lock.json");
    push_s(&mut v, "go.mod");
    push_s(&mut v, "go.sum");
    push_s(&mut v, "pyproject.toml");
    push_s(&mut v, "requirements*.txt");
    m.push_entry("config_files", v);

    let mut v: Vec<String> = Vec::new();
    push_s(&mut v, "Dockerfile*");
    push_s(&mut v, "docker-compose*");
    push_s(&mut v, ".dockerignore");
    push_s(&mut v, "Makefile");
    push_s(&mut v, ".eslintrc*");
    push_s(&mut v, ".prettierrc*");
    push_s(&mut v, ".editorconfig");
    push_s(&mut v, "tsconfig*");
    push_s(&mut v, ".*rc");
    push_s(&mut v, ".*rc.*");
    push_s(&mut v, ".tool-versions");
    push_s(&mut v, ".nvmrc");
    push_s(&mut v, ".python-version");
    push_s(&mut v, ".ruby-version");
    push_s(&mut v, "rust-toolchain.toml");
    push_s(&mut v, "lefthook.yml");
    push_s(&mut v, ".husky/**");
    push_s(&mut v, ".pre-commit-config.yaml");
    m.push_entry("devops", v);

    let mut v: Vec<String> = Vec::new();
    push_s(&mut v, "jest.config.*");
    push_s(&mut v, "pytest.ini");
    push_s(&mut v, "vitest.config.*");
    push_s(&mut v, ".coveragerc");
    push_s(&mut v, "codecov.yml");
    m.push_entry("test_config", v);

    let mut v: Vec<String> = Vec::new();
    push_s(&mut v, "docs/research/**");
    m.push_entry("research_output", v);

    let mut v: Vec<String> = Vec::new();
    push_s(&mut v, "docs/architecture/**");
    push_s(&mut v, "docs/adr/**");
    m.push_entry("architecture_output", v);

    let mut v: Vec<String> = Vec::new();
    push_s(&mut v, "docs/plans/**");
    m.push_entry("plans_output", v);

    let mut v: Vec<String> = Vec::new();
    push_s(&mut v, "docs/reviews/**");
    m.push_entry("reviews_output", v);

    let mut v: Vec<String> = Vec::new();
    push_s(&mut v, "docs/reviews/security/**");
    m.push_entry("security_reviews_output", v);

    let mut v: Vec<String> = Vec::new();
    push_s(&mut v, "docs/**");
    push_s(&mut v, "*.md");
    push_s(&mut v, "*.aisp");
    push_s(&mut v, "CHANGELOG.md");
    push_s(&mut v, "LICENSE");
    m.push_entry("docs_output", v);

    proof {
        assert(m.view_spec() =~~= default_categories_spec());
    }
    m
}

/// A lower-case letter, digit or underscore, as allowed after the first
/// character of a category name.
pub open spec fn is_name_char(c: char) -> bool {
    text::is_lower(c) || text::is_digit(c) || c == '_'
}

/// The category name inside a `{{name}}` macro pattern, if the pattern is
/// exactly one such macro.
pub open spec fn macro_name(p: Seq<char>) -> Option<Seq<char>> {
    if p.len() >= 5 && p[0] == '{' && p[1] == '{' && p[p.len() - 1] == '}' && p[p.len() - 2]
        == '}' && text::is_lower(p[2]) && (forall|j: int|
        2 <= j < p.len() - 2 ==> is_name_char(#[trigger] p[j])) {
        Some(p.subrange(2, p.len() - 2))
    } else {
        None
    }
}

/// Extract the category name from a macro pattern, if it is one.
pub fn macro_name_of(p: &str) -> (r: Option<String>)
    ensures
        match r {
            Some(n) => macro_name(p@) == Some(n@),
            None => macro_name(p@) is None,
        },
{
    let v = text::str_to_chars(p);
    let n = v.len();
    if n < 5 {
        return None;
    }
    if !(v[0] == '{' && v[1] == '{' && v[n - 1] == '}' && v[n - 2] == '}') {
        return None;
    }
    if !text::is_lower_char(v[2]) {
        return None;
    }
    let mut inner: Vec<char> = Vec::new();
    let mut j: usize = 2;
    while j < n - 2
        invariant
            2 <= j <= n - 2,
            n == v@.len(),
            v@ == p@,
            5 <= n,
            inner@ == v@.subrange(2, j as int),
            forall|k: int| 2 <= k < j ==> is_name_char(#[trigger] v@[k]),
        decreases n - 2 - j,
    {
        let c = v[j];
        if !(text::is_lower_char(c) || text::is_digit_char(c) || c == '_') {
            assert(!is_name_char(v@[j as int]));
            return None;
        }
        inner.push(c);
        assert(inner@ =~= v@.subrange(2, j + 1));
        j = j + 1;
    }
    assert(inner@ =~= p@.subrange(2, p@.len() - 2));
    Some(text::chars_to_string(&inner))
}

/// The expansion of a pattern list against a category map: macros expand
/// to their category's patterns, other patterns pass through.
pub open spec fn expand_spec(
    ps: Seq<Seq<char>>,
    cv: Seq<(Seq<char>, Seq<Seq<char>>)>,
) -> Seq<Seq<char>>
    decreases ps.len(),
{
    if ps.len() == 0 {
        Seq::empty()
    } else {
        (match macro_name(ps[0]) {
            Some(n) => match find_in_view(cv, n) {
                Some(v) => v,
                None => Seq::empty(),
            },
            None => seq![ps[0]],
        }) + expand_spec(ps.drop_first(), cv)
    }
}

/// Every macro in the list names a category that the map has.
pub open spec fn macros_known(ps: Seq<Seq<char>>, cv: Seq<(Seq<char>, Seq<Seq<char>>)>) -> bool {
    forall|i: int|
        0 <= i < ps.len() ==> (match macro_name(#[trigger] ps[i]) {
            Some(n) => find_in_view(cv, n) is Some,
            None => true,
        })
}

/// The reason text an unknown category carries: the role and the
/// category it asked for.
pub open spec fn expand_reason_spec(role: Seq<char>, category: Seq<char>) -> Seq<char> {
    "role '"@ + role + "': unknown category '"@ + category + "'"@
}

/// Expand `{{category}}` macros in a list of glob patterns. An unknown
/// category is a hard configuration error, and the only error; its
/// reason names the role and the first unknown category.
pub fn expand_macros(patterns: &Vec<String>, categories: &CategoryMap, role_name: &str) -> (r:
    Result<Vec<String>, CaptainHookError>)
    ensures
        r matches Ok(v) ==> v.deep_view() == expand_spec(
            patterns.deep_view(),
            categories.view_spec(),
        ),
        r is Ok <==> macros_known(patterns.deep_view(), categories.view_spec()),
        r matches Err(e) ==> e is ConfigParse,
        r matches Err(e) ==> (e matches CaptainHookError::ConfigParse { path, reason } ==> path@
            == "roles.yml"@ && exists|i: int, n: Seq<char>|
            #![trigger patterns.deep_view()[i], find_in_view(categories.view_spec(), n)]
            {
                &&& 0 <= i < patterns.deep_view().len()
                &&& macro_name(patterns.deep_view()[i]) == Some(n)
                &&& find_in_view(categories.view_spec(), n) is None
                &&& reason@ == expand_reason_spec(role_name@, n)
            }),
{
    let ghost ps = patterns.deep_view();
    let ghost cv = categories.view_spec();
    let mut out: Vec<String> = Vec::new();
    proof {
        assert(ps.skip(0) =~= ps);
        assert(out.deep_view() =~~= Seq::<Seq<char>>::empty());
    }
    let mut i: usize = 0;
    while i < patterns.len()
        invariant
            0 <= i <= patterns@.len(),
            ps == patterns.deep_view(),
            cv == categories.view_spec(),
            expand_spec(ps, cv) == out.deep_view() + expand_spec(ps.skip(i as int), cv),
            forall|k: int|
                0 <= k < i ==> (match macro_name(#[trigger] ps[k]) {
                    Some(n) => find_in_view(cv, n) is Some,
                    None => true,
                }),
        decreases patterns@.len() - i,
    {
        proof {
            assert(ps.skip(i as int)[0] == ps[i as int]);
            assert(ps.skip(i as int).drop_first() =~= ps.skip(i + 1));
            assert(ps[i as int] == patterns@[i as int].deep_view());
        }
        let ghost prev = out.deep_view();
        match macro_name_of(patterns[i].as_str()) {
            Some(n) => {
                match categories.get(n.as_str()) {
                    Some(cat_patterns) => {
                        extend_strings(&mut out, cat_patterns);
                        proof {
                            assert(out.deep_view() == prev + cat_patterns.deep_view());
                        }
                    },
                    None => {
                        let mut msg: Vec<char> = Vec::new();
                        text::push_str_chars(&mut msg, "role '");
                        text::push_str_chars(&mut msg, role_name);
                        text::push_str_chars(&mut msg, "': unknown category '");
                        text::push_str_chars(&mut msg, n.as_str());
                        text::push_str_chars(&mut msg, "'");
                        proof {
                            assert(msg@ =~= expand_reason_spec(role_name@, n@));
                            assert(macro_name(ps[i as int]) == Some(n@));
                            assert(find_in_view(cv, n@) is None);
                        }
                        return Err(CaptainHookError::ConfigParse {
                            path: String::from_str("roles.yml"),
                            reason: text::chars_to_string(&msg),
                        });
                    },
                }
            },
            None => {
                out.push(patterns[i].clone());
                proof {
                    assert(out.deep_view() =~~= prev.push(ps[i as int]));
                    assert(prev.push(ps[i as int]) =~= prev + seq![ps[i as int]]);
                }
            },
        }
        i = i + 1;
    }
    proof {
        assert(ps.skip(i as int) =~= Seq::<Seq<char>>::empty());
        assert(out.deep_view() + expand_spec(ps.skip(i as int), cv) =~= out.deep_view());
    }
    Ok(out)
}

/// Append copies of `src`'s strings to `out`.
pub fn extend_strings(out: &mut Vec<String>, src: &Vec<String>)
    ensures
        final(out)@ == old(out)@ + src@,
        final(out).deep_view() == old(out).deep_view() + src.deep_view(),
{
    let mut t: usize = 0;
    while t < src.len()
        invariant
            0 <= t <= src@.len(),
            out@ == old(out)@ + src@.subrange(0, t as int),
        decreases src@.len() - t,
    {
        out.push(src[t].clone());
        assert(out@ =~= old(out)@ + src@.subrange(0, t + 1));
        t = t + 1;
    }
    proof {
        assert(out@ =~= old(out)@ + src@);
        assert(out.deep_view() =~~= old(out).deep_view() + src.deep_view());
    }
}

/// Defaults with user entries substituted in place.
pub open spec fn override_defaults(
    d: Seq<(Seq<char>, Seq<Seq<char>>)>,
    u: Seq<(Seq<char>, Seq<Seq<char>>)>,
) -> Seq<(Seq<char>, Seq<Seq<char>>)> {
    Seq::new(
        d.len(),
        |i: int|
            (
                d[i].0,
                match find_in_view(u, d[i].0) {
                    Some(v) => v,
                    None => d[i].1,
                },
            ),
    )
}

/// User entries whose names the defaults do not have, in order.
pub open spec fn extra_entries(
    d: Seq<(Seq<char>, Seq<Seq<char>>)>,
    u: Seq<(Seq<char>, Seq<Seq<char>>)>,
) -> Seq<(Seq<char>, Seq<Seq<char>>)> {
    u.filter(|e: (Seq<char>, Seq<Seq<char>>)| find_in_view(d, e.0) is None)
}

/// User categories merged over defaults: every default name is present,
/// user patterns win on shared names, and new user names follow.
pub open spec fn merged_view(
    d: Seq<(Seq<char>, Seq<Seq<char>>)>,
    u: Seq<(Seq<char>, Seq<Seq<char>>)>,
) -> Seq<(Seq<char>, Seq<Seq<char>>)> {
    override_defaults(d, u) + extra_entries(d, u)
}

/// Merge user categories over a set of defaults.
pub fn merge_categories(defaults: &CategoryMap, user: &CategoryMap) -> (m: CategoryMap)
    ensures
        m.view_spec() == merged_view(defaults.view_spec(), user.view_spec()),
{
    let ghost dv = defaults.view_spec();
    let ghost uv = user.view_spec();
    let mut m = CategoryMap::new();
    let mut i: usize = 0;
    while i < defaults.entries.len()
        invariant
            0 <= i <= defaults.entries@.len(),
            dv == defaults.view_spec(),
            uv == user.view_spec(),
            m.view_spec() =~= override_defaults(dv, uv).take(i as int),
        decreases defaults.entries@.len() - i,
    {
        let name = &defaults.entries[i].0;
        let chosen = match user.get(name.as_str()) {
            Some(v) => clone_string_vec(v),
            None => clone_string_vec(&defaults.entries[i].1),
        };
        m.push_entry(name.as_str(), chosen);
        proof {
            assert(dv[i as int].0 == defaults.entries@[i as int].0@);
            assert(dv[i as int].1 == defaults.entries@[i as int].1.deep_view());
            assert(m.view_spec() =~~= override_defaults(dv, uv).take(i + 1));
        }
        i = i + 1;
    }
    proof {
        assert(override_defaults(dv, uv).take(i as int) =~= override_defaults(dv, uv));
    }
    proof {
        assert(uv.take(0) =~= Seq::<(Seq<char>, Seq<Seq<char>>)>::empty());
        lemma_extra_empty(dv);
    }
    let mut j: usize = 0;
    while j < user.entries.len()
        invariant
            0 <= j <= user.entries@.len(),
            dv == defaults.view_spec(),
            uv == user.view_spec(),
            m.view_spec() =~= override_defaults(dv, uv) + extra_entries(dv, uv.take(j as int)),
        decreases user.entries@.len() - j,
    {
        proof {
            lemma_extra_step(dv, uv.take(j + 1));
            assert(uv.take(j + 1).drop_last() =~= uv.take(j as int));
            assert(uv.take(j + 1).last() == uv[j as int]);
        }
        let name = &user.entries[j].0;
        match defaults.get(name.as_str()) {
            Some(_) => {
                proof {
                    assert(uv[j as int].0 == user.entries@[j as int].0@);
                    assert(extra_entries(dv, uv.take(j + 1)) == extra_entries(
                        dv,
                        uv.take(j as int),
                    ));
                }
            },
            None => {
                let pats = clone_string_vec(&user.entries[j].1);
                m.push_entry(name.as_str(), pats);
                proof {
                    assert(uv[j as int].0 == user.entries@[j as int].0@);
                    assert(uv[j as int].1 == user.entries@[j as int].1.deep_view());
                    assert(extra_entries(dv, uv.take(j + 1)) == extra_entries(
                        dv,
                        uv.take(j as int),
                    ).push(uv[j as int]));
                    assert(m.view_spec() =~~= override_defaults(dv, uv) + extra_entries(
                        dv,
                        uv.take(j + 1),
                    ));
                }
            },
        }
        j = j + 1;
    }
    proof {
        assert(uv.take(j as int) =~= uv);
    }
    m
}

/// No entries, nothing extra.
proof fn lemma_extra_empty(d: Seq<(Seq<char>, Seq<Seq<char>>)>)
    ensures
        extra_entries(d, Seq::<(Seq<char>, Seq<Seq<char>>)>::empty())
            == Seq::<(Seq<char>, Seq<Seq<char>>)>::empty(),
{
    reveal_with_fuel(Seq::filter, 1);
    assert(extra_entries(d, Seq::<(Seq<char>, Seq<Seq<char>>)>::empty()) =~= Seq::<(
        Seq<char>,
        Seq<Seq<char>>,
    )>::empty());
}

/// One more user entry extends the extras exactly when its name is new.
proof fn lemma_extra_step(d: Seq<(Seq<char>, Seq<Seq<char>>)>, u: Seq<(Seq<char>, Seq<Seq<char>>)>)
    requires
        u.len() > 0,
    ensures
        find_in_view(d, u.last().0) is None ==> extra_entries(d, u) == extra_entries(
            d,
            u.drop_last(),
        ).push(u.last()),
        find_in_view(d, u.last().0) is Some ==> extra_entries(d, u) == extra_entries(
            d,
            u.drop_last(),
        ),
{
    reveal_with_fuel(Seq::filter, 2);
}


/// Lexicographic order on character sequences, by code point.
pub open spec fn lex_le(a: Seq<char>, b: Seq<char>) -> bool
    decreases a.len(),
{
    if a.len() == 0 {
        true
    } else if b.len() == 0 {
        false
    } else if a[0] != b[0] {
        a[0] <= b[0]
    } else {
        lex_le(a.drop_first(), b.drop_first())
    }
}

/// Lexicographic order is total.
pub proof fn lemma_lex_total(a: Seq<char>, b: Seq<char>)
    ensures
        lex_le(a, b) || lex_le(b, a),
    decreases a.len(),
{
    if a.len() > 0 && b.len() > 0 && a[0] == b[0] {
        lemma_lex_total(a.drop_first(), b.drop_first());
    }
}

/// Lexicographic order is transitive.
pub proof fn lemma_lex_trans(a: Seq<char>, b: Seq<char>, c: Seq<char>)
    requires
        lex_le(a, b),
        lex_le(b, c),
    ensures
        lex_le(a, c),
    decreases a.len(),
{
    if a.len() > 0 && b.len() > 0 && c.len() > 0 && a[0] == b[0] && b[0] == c[0] {
        lemma_lex_trans(a.drop_first(), b.drop_first(), c.drop_first());
    }
}

/// Compare two strings lexicographically.
pub fn str_lex_le(a: &str, b: &str) -> (r: bool)
    ensures
        r == lex_le(a@, b@),
{
    let av = text::str_to_chars(a);
    let bv = text::str_to_chars(b);
    proof {
        assert(a@.skip(0) =~= a@);
        assert(b@.skip(0) =~= b@);
    }
    let mut i: usize = 0;
    while i < av.len() && i < bv.len()
        invariant
            0 <= i,
            i <= av@.len(),
            i <= bv@.len(),
            av@ == a@,
            bv@ == b@,
            lex_le(a@, b@) == lex_le(a@.skip(i as int), b@.skip(i as int)),
        decreases av@.len() - i,
    {
        let x = av[i];
        let y = bv[i];
        if x != y {
            proof {
                assert(a@.skip(i as int)[0] == a@[i as int]);
                assert(b@.skip(i as int)[0] == b@[i as int]);
            }
            return x <= y;
        }
        proof {
            assert(a@.skip(i as int)[0] == a@[i as int]);
            assert(b@.skip(i as int)[0] == b@[i as int]);
            assert(a@.skip(i as int).drop_first() =~= a@.skip(i + 1));
            assert(b@.skip(i as int).drop_first() =~= b@.skip(i + 1));
        }
        i = i + 1;
    }
    proof {
        if i >= av.len() {
            assert(a@.skip(i as int).len() == 0);
        } else {
            assert(b@.skip(i as int).len() == 0);
            assert(a@.skip(i as int).len() > 0);
        }
    }
    i >= av.len()
}

/// The number of slashes in a pattern.
pub open spec fn slash_count(p: Seq<char>) -> int
    decreases p.len(),
{
    if p.len() == 0 {
        0
    } else {
        (if p[0] == '/' {
            1int
        } else {
            0int
        }) + slash_count(p.drop_first())
    }
}

/// A pattern's slash depth: how many directory levels it names.
pub fn slash_count_exec(p: &str) -> (r: usize)
    ensures
        r as int == slash_count(p@),
{
    let v = text::str_to_chars(p);
    let mut r: usize = 0;
    let mut i: usize = 0;
    proof {
        assert(p@.skip(0) =~= p@);
    }
    while i < v.len()
        invariant
            0 <= i <= v@.len(),
            v@ == p@,
            r <= i,
            slash_count(p@) == r + slash_count(p@.skip(i as int)),
        decreases v@.len() - i,
    {
        proof {
            assert(p@.skip(i as int)[0] == p@[i as int]);
            assert(p@.skip(i as int).drop_first() =~= p@.skip(i + 1));
        }
        if v[i] == '/' {
            r = r + 1;
        }
        i = i + 1;
    }
    proof {
        assert(slash_count(p@.skip(i as int)) == 0);
    }
    r
}

/// The maximum slash depth over a pattern list, zero when empty.
pub open spec fn max_depth(ps: Seq<Seq<char>>) -> int
    decreases ps.len(),
{
    if ps.len() == 0 {
        0
    } else {
        let rest = max_depth(ps.drop_first());
        if slash_count(ps[0]) > rest {
            slash_count(ps[0])
        } else {
            rest
        }
    }
}

/// Compute the maximum slash depth of a pattern list.
pub fn max_depth_exec(ps: &Vec<String>) -> (r: usize)
    ensures
        r as int == max_depth(ps.deep_view()),
{
    let ghost pv = ps.deep_view();
    let mut r: usize = 0;
    let mut i: usize = ps.len();
    proof {
        assert(pv.skip(ps@.len() as int) =~= Seq::<Seq<char>>::empty());
    }
    while i > 0
        invariant
            0 <= i <= ps@.len(),
            pv == ps.deep_view(),
            r as int == max_depth(pv.skip(i as int)),
        decreases i,
    {
        i = i - 1;
        let d = slash_count_exec(ps[i].as_str());
        proof {
            assert(pv.skip(i as int)[0] == pv[i as int]);
            assert(pv.skip(i as int).drop_first() =~= pv.skip(i + 1));
            assert(pv[i as int] == ps@[i as int]@);
        }
        if d > r {
            r = d;
        }
    }
    proof {
        assert(pv.skip(0) =~= pv);
    }
    r
}

/// One normalizer category: its name, compiled globs, raw patterns and
/// slash depth.
pub struct NormEntry {
    pub name: String,
    pub set: globset::GlobSet,
    pub patterns: Vec<String>,
    pub depth: usize,
}

/// The specificity preorder on normalizer entries: deeper first, names
/// lexicographic within one depth.
pub open spec fn norm_le(a: NormEntry, b: NormEntry) -> bool {
    a.depth > b.depth || (a.depth == b.depth && lex_le(a.name@, b.name@))
}

/// A well-formed normalizer entry: the compiled set holds exactly the raw
/// patterns, there is at least one, and the depth is their maximum slash
/// depth.
pub open spec fn entry_wf(e: NormEntry) -> bool {
    globs::set_patterns(e.set) == e.patterns.deep_view() && e.depth as int == max_depth(
        e.patterns.deep_view(),
    ) && e.patterns.deep_view().len() > 0
}

/// Whether the entry comes from the given category definition.
pub open spec fn entry_like(e: NormEntry, name: Seq<char>, patterns: Seq<Seq<char>>) -> bool {
    e.name@ == name && e.patterns.deep_view() == patterns
}

/// Whether some entry of the list comes from the given category.
pub open spec fn has_entry(s: Seq<NormEntry>, name: Seq<char>, patterns: Seq<Seq<char>>) -> bool {
    exists|k: int| 0 <= k < s.len() && entry_like(#[trigger] s[k], name, patterns)
}

/// All entries of the list are well formed.
pub open spec fn entries_wf(s: Seq<NormEntry>) -> bool {
    forall|k: int| 0 <= k < s.len() ==> entry_wf(#[trigger] s[k])
}

/// The list is sorted most-specific-first.
pub open spec fn entries_sorted(s: Seq<NormEntry>) -> bool {
    forall|i: int, j: int| #![trigger s[i], s[j]] 0 <= i <= j < s.len() ==> norm_le(s[i], s[j])
}

/// Removing an element keeps every category except possibly the removed
/// entry's own.
proof fn lemma_has_entry_remove(
    s: Seq<NormEntry>,
    m: int,
    name: Seq<char>,
    patterns: Seq<Seq<char>>,
)
    requires
        0 <= m < s.len(),
        has_entry(s, name, patterns),
    ensures
        has_entry(s.remove(m), name, patterns) || entry_like(s[m], name, patterns),
{
    let k = choose|k: int| 0 <= k < s.len() && entry_like(#[trigger] s[k], name, patterns);
    if k < m {
        assert(s.remove(m)[k] == s[k]);
    } else if k > m {
        assert(s.remove(m)[k - 1] == s[k]);
    }
}

/// The specificity preorder is total.
proof fn lemma_norm_total(a: NormEntry, b: NormEntry)
    ensures
        norm_le(a, b) || norm_le(b, a),
{
    lemma_lex_total(a.name@, b.name@);
}

/// The specificity preorder is transitive.
proof fn lemma_norm_trans(a: NormEntry, b: NormEntry, c: NormEntry)
    requires
        norm_le(a, b),
        norm_le(b, c),
    ensures
        norm_le(a, c),
{
    if a.depth == b.depth && b.depth == c.depth {
        lemma_lex_trans(a.name@, b.name@, c.name@);
    }
}

/// Compare two entries in the specificity preorder.
fn norm_le_exec(a: &NormEntry, b: &NormEntry) -> (r: bool)
    ensures
        r == norm_le(*a, *b),
{
    if a.depth > b.depth {
        true
    } else if a.depth == b.depth {
        str_lex_le(a.name.as_str(), b.name.as_str())
    } else {
        false
    }
}

/// Maps raw file paths to `category:relative` form for portable storage.
///
/// Categories are matched most-specific-first: deeper glob patterns come
/// before shallower ones, and names break ties alphabetically.
pub struct PathNormalizer {
    /// The categories, sorted most-specific-first.
    pub categories: Vec<NormEntry>,
}

impl PathNormalizer {
    /// Build a normalizer from a category map. Categories with no
    /// patterns are dropped; the rest are compiled and sorted by
    /// specificity. Construction succeeds exactly when every non-empty
    /// category's pattern list is compilable.
    pub fn new(categories: &CategoryMap) -> (r: Result<PathNormalizer, CaptainHookError>)
        ensures
            r is Ok <==> (forall|t: int|
                0 <= t < categories.view_spec().len() ==> ((#[trigger] categories.view_spec()[
                    t
                ]).1.len() > 0 ==> globs::list_compilable(categories.view_spec()[t].1))),
            r matches Ok(n) ==> {
                &&& entries_sorted(n.categories@)
                &&& entries_wf(n.categories@)
                &&& forall|t: int|
                    0 <= t < categories.view_spec().len() && (#[trigger] categories.view_spec()[
                        t
                    ]).1.len() > 0 ==> has_entry(
                        n.categories@,
                        categories.view_spec()[t].0,
                        categories.view_spec()[t].1,
                    )
            },
            r matches Err(e) ==> e is GlobPattern,
    {
        let ghost cv = categories.view_spec();
        let mut work: Vec<NormEntry> = Vec::new();
        let mut t: usize = 0;
        while t < categories.entries.len()
            invariant
                0 <= t <= categories.entries@.len(),
                cv == categories.view_spec(),
                forall|u: int|
                    0 <= u < t ==> ((#[trigger] cv[u]).1.len() > 0 ==> globs::list_compilable(
                        cv[u].1,
                    )),
                entries_wf(work@),
                forall|u: int|
                    0 <= u < t && (#[trigger] cv[u]).1.len() > 0 ==> has_entry(
                        work@,
                        cv[u].0,
                        cv[u].1,
                    ),
            decreases categories.entries@.len() - t,
        {
            proof {
                assert(cv[t as int].0 == categories.entries@[t as int].0@);
                assert(cv[t as int].1 == categories.entries@[t as int].1.deep_view());
            }
            let patterns = &categories.entries[t].1;
            if patterns.len() > 0 {
                let set = match globs::build_globset(patterns) {
                    Ok(s) => s,
                    Err(e) => {
                        proof {
                            assert(!globs::list_compilable(cv[t as int].1));
                        }
                        return Err(e);
                    },
                };
                let depth = max_depth_exec(patterns);
                let e = NormEntry {
                    name: categories.entries[t].0.clone(),
                    set,
                    patterns: clone_string_vec(patterns),
                    depth,
                };
                proof {
                    assert(e.patterns.deep_view() =~~= categories.entries@[
                        t as int
                    ].1.deep_view());
                    assert(entry_wf(e));
                    assert(entry_like(e, cv[t as int].0, cv[t as int].1));
                }
                let ghost before = work@;
                work.push(e);
                proof {
                    assert(work@[before.len() as int] == e);
                    assert forall|u: int|
                        0 <= u < t + 1 && (#[trigger] cv[u]).1.len() > 0 implies has_entry(
                        work@,
                        cv[u].0,
                        cv[u].1,
                    ) by {
                        if u < t {
                            let k = choose|k: int|
                                0 <= k < before.len() && entry_like(
                                    #[trigger] before[k],
                                    cv[u].0,
                                    cv[u].1,
                                );
                            assert(work@[k] == before[k]);
                        } else {
                            assert(entry_like(work@[before.len() as int], cv[u].0, cv[u].1));
                        }
                    }
                }
            } else {
                proof {
                    assert(cv[t as int].1.len() == 0);
                }
            }
            t = t + 1;
        }
        // Selection sort: repeatedly move the first most-specific entry over.
        let mut sorted: Vec<NormEntry> = Vec::new();
        while work.len() > 0
            invariant
                cv == categories.view_spec(),
                entries_sorted(sorted@),
                entries_wf(sorted@),
                entries_wf(work@),
                forall|i: int, j: int|
                    #![trigger sorted@[i], work@[j]]
                    0 <= i < sorted@.len() && 0 <= j < work@.len() ==> norm_le(
                        sorted@[i],
                        work@[j],
                    ),
                forall|u: int|
                    0 <= u < cv.len() && (#[trigger] cv[u]).1.len() > 0 ==> has_entry(
                        sorted@,
                        cv[u].0,
                        cv[u].1,
                    ) || has_entry(work@, cv[u].0, cv[u].1),
            decreases work@.len(),
        {
            let mut m: usize = 0;
            proof {
                lemma_norm_total(work@[0], work@[0]);
            }
            let mut k: usize = 1;
            while k < work.len()
                invariant
                    0 <= m < k <= work@.len(),
                    forall|j: int| 0 <= j < k ==> norm_le(work@[m as int], #[trigger] work@[j]),
                decreases work@.len() - k,
            {
                let cand_first = norm_le_exec(&work[k], &work[m]);
                let cur_first = norm_le_exec(&work[m], &work[k]);
                if cand_first && !cur_first {
                    proof {
                        assert forall|j: int| 0 <= j < k + 1 implies norm_le(
                            work@[k as int],
                            #[trigger] work@[j],
                        ) by {
                            lemma_norm_total(work@[k as int], work@[k as int]);
                            if j < k {
                                lemma_norm_trans(work@[k as int], work@[m as int], work@[j]);
                            }
                        }
                    }
                    m = k;
                } else {
                    proof {
                        if !cand_first {
                            lemma_norm_total(work@[m as int], work@[k as int]);
                        }
                    }
                }
                k = k + 1;
            }
            let ghost prev_work = work@;
            let ghost prev_sorted = sorted@;
            let e = work.remove(m);
            proof {
                assert(e == prev_work[m as int]);
                assert forall|u: int|
                    0 <= u < cv.len() && (#[trigger] cv[u]).1.len() > 0 implies has_entry(
                    prev_sorted.push(e),
                    cv[u].0,
                    cv[u].1,
                ) || has_entry(work@, cv[u].0, cv[u].1) by {
                    if has_entry(prev_work, cv[u].0, cv[u].1) {
                        lemma_has_entry_remove(prev_work, m as int, cv[u].0, cv[u].1);
                        if entry_like(prev_work[m as int], cv[u].0, cv[u].1) {
                            assert(prev_sorted.push(e)[prev_sorted.len() as int] == e);
                            assert(has_entry(prev_sorted.push(e), cv[u].0, cv[u].1));
                        }
                    } else {
                        let kk = choose|kk: int|
                            0 <= kk < prev_sorted.len() && entry_like(
                                #[trigger] prev_sorted[kk],
                                cv[u].0,
                                cv[u].1,
                            );
                        assert(prev_sorted.push(e)[kk] == prev_sorted[kk]);
                        assert(has_entry(prev_sorted.push(e), cv[u].0, cv[u].1));
                    }
                }
                assert forall|j: int| 0 <= j < work@.len() implies entry_wf(
                    #[trigger] work@[j],
                ) by {
                    if j < m {
                        assert(work@[j] == prev_work[j]);
                    } else {
                        assert(work@[j] == prev_work[j + 1]);
                    }
                }
                assert forall|j: int| 0 <= j < work@.len() implies norm_le(
                    e,
                    #[trigger] work@[j],
                ) by {
                    if j < m {
                        assert(work@[j] == prev_work[j]);
                    } else {
                        assert(work@[j] == prev_work[j + 1]);
                    }
                }
            }
            sorted.push(e);
            proof {
                assert(sorted@ == prev_sorted.push(e));
                assert(sorted@[prev_sorted.len() as int] == e);
                assert forall|i: int, j: int|
                    #![trigger sorted@[i], sorted@[j]]
                    0 <= i <= j < sorted@.len() implies norm_le(sorted@[i], sorted@[j]) by {
                    if j < prev_sorted.len() {
                        assert(sorted@[i] == prev_sorted[i]);
                        assert(sorted@[j] == prev_sorted[j]);
                    } else if i < prev_sorted.len() {
                        assert(sorted@[i] == prev_sorted[i]);
                        assert(norm_le(prev_sorted[i], prev_work[m as int]));
                    }
                }
                assert forall|i: int, j: int|
                    #![trigger sorted@[i], work@[j]]
                    0 <= i < sorted@.len() && 0 <= j < work@.len() implies norm_le(
                    sorted@[i],
                    work@[j],
                ) by {
                    if i < prev_sorted.len() {
                        assert(sorted@[i] == prev_sorted[i]);
                        if j < m {
                            assert(work@[j] == prev_work[j]);
                        } else {
                            assert(work@[j] == prev_work[j + 1]);
                        }
                    } else {
                        assert(sorted@[i] == e);
                    }
                }
            }
        }
        Ok(PathNormalizer { categories: sorted })
    }
}


/// `pre` is a prefix of `path`.
pub open spec fn is_prefix_of(path: Seq<char>, pre: Seq<char>) -> bool {
    pre.len() <= path.len() && path.subrange(0, pre.len() as int) == pre
}

/// The directory part of a `dir/**` pattern, if the pattern has that form.
pub open spec fn dir_prefix(p: Seq<char>) -> Option<Seq<char>> {
    if p.len() >= 3 && p[p.len() - 3] == '/' && p[p.len() - 2] == '*' && p[p.len() - 1] == '*' {
        Some(p.subrange(0, p.len() - 3))
    } else {
        None
    }
}

/// One step of prefix stripping: take the pattern's directory prefix when
/// it is the longest one seen that leaves a non-empty remainder.
pub open spec fn strip_step(
    path: Seq<char>,
    p: Seq<char>,
    best: Seq<char>,
    best_len: int,
) -> (Seq<char>, int) {
    match dir_prefix(p) {
        Some(pre) => {
            if is_prefix_of(path, pre) && pre.len() > best_len {
                let rest = path.skip(pre.len() as int);
                let rest2 = if rest.len() > 0 && rest[0] == '/' {
                    rest.skip(1)
                } else {
                    rest
                };
                if rest2.len() > 0 {
                    (rest2, pre.len() as int)
                } else {
                    (best, best_len)
                }
            } else {
                (best, best_len)
            }
        },
        None => (best, best_len),
    }
}

/// Fold `strip_step` over the patterns from index `i` on.
pub open spec fn strip_from(
    path: Seq<char>,
    ps: Seq<Seq<char>>,
    i: int,
    best: Seq<char>,
    best_len: int,
) -> Seq<char>
    decreases ps.len() - i,
{
    if i < 0 || i >= ps.len() {
        best
    } else {
        let st = strip_step(path, ps[i], best, best_len);
        strip_from(path, ps, i + 1, st.0, st.1)
    }
}

/// The category-relative form of `path` under the category's patterns:
/// the path with its longest `dir/**` directory prefix stripped, or the
/// path itself for file-level patterns.
pub open spec fn strip_spec(path: Seq<char>, ps: Seq<Seq<char>>) -> Seq<char> {
    strip_from(path, ps, 0, path, 0)
}


/// Whether `pre` is a prefix of `path`, character-wise.
pub fn chars_is_prefix(path: &Vec<char>, pre: &Vec<char>) -> (r: bool)
    ensures
        r == is_prefix_of(path@, pre@),
{
    if pre.len() > path.len() {
        return false;
    }
    let mut j: usize = 0;
    while j < pre.len()
        invariant
            0 <= j <= pre@.len(),
            pre@.len() <= path@.len(),
            forall|t: int| 0 <= t < j ==> path@[t] == #[trigger] pre@[t],
        decreases pre@.len() - j,
    {
        if path[j] != pre[j] {
            assert(path@[j as int] != pre@[j as int]);
            assert(!is_prefix_of(path@, pre@)) by {
                if is_prefix_of(path@, pre@) {
                    assert(path@.subrange(0, pre@.len() as int)[j as int] == path@[j as int]);
                }
            }
            return false;
        }
        j = j + 1;
    }
    proof {
        assert(path@.subrange(0, pre@.len() as int) =~= pre@);
    }
    true
}

/// Whether `pre_len` characters of `pat` prefix `path`.
fn chars_prefix(path: &Vec<char>, pat: &Vec<char>, pre_len: usize) -> (r: bool)
    requires
        pre_len <= pat@.len(),
    ensures
        r == is_prefix_of(path@, pat@.subrange(0, pre_len as int)),
{
    if pre_len > path.len() {
        return false;
    }
    let mut j: usize = 0;
    while j < pre_len
        invariant
            0 <= j <= pre_len <= pat@.len(),
            pre_len <= path@.len(),
            forall|t: int| 0 <= t < j ==> path@[t] == #[trigger] pat@[t],
        decreases pre_len - j,
    {
        if path[j] != pat[j] {
            assert(path@[j as int] != pat@.subrange(0, pre_len as int)[j as int]);
            return false;
        }
        j = j + 1;
    }
    proof {
        assert(path@.subrange(0, pre_len as int) =~= pat@.subrange(0, pre_len as int));
    }
    true
}

/// Strip the category's directory prefix from the path; file-level
/// patterns leave the path unchanged.
pub fn strip_category_prefix(path: &str, patterns: &Vec<String>) -> (r: String)
    ensures
        r@ == strip_spec(path@, patterns.deep_view()),
{
    let ghost ps = patterns.deep_view();
    let pv = text::str_to_chars(path);
    let mut best: Vec<char> = text::str_to_chars(path);
    let mut best_len: usize = 0;
    let ghost gbest0 = best@;
    proof {
        assert(strip_from(path@, ps, 0, gbest0, 0) == strip_spec(path@, ps));
    }
    let mut i: usize = 0;
    while i < patterns.len()
        invariant
            0 <= i <= patterns@.len(),
            ps == patterns.deep_view(),
            pv@ == path@,
            best_len <= path@.len(),
            strip_spec(path@, ps) == strip_from(path@, ps, i as int, best@, best_len as int),
        decreases patterns@.len() - i,
    {
        let ghost p = ps[i as int];
        proof {
            assert(p == patterns@[i as int]@);
        }
        let pat = text::str_to_chars(patterns[i].as_str());
        let n = pat.len();
        if n >= 3 && pat[n - 3] == '/' && pat[n - 2] == '*' && pat[n - 1] == '*' {
            let pre_len = n - 3;
            proof {
                assert(dir_prefix(p) == Some(p.subrange(0, p.len() - 3)));
                assert(pat@.subrange(0, pre_len as int) == p.subrange(0, p.len() - 3));
            }
            if chars_prefix(&pv, &pat, pre_len) && pre_len > best_len {
                // Candidate: the remainder after the directory prefix.
                let mut rest: Vec<char> = Vec::new();
                let mut t: usize = pre_len;
                let skip_slash = pre_len < pv.len() && pv[pre_len] == '/';
                if skip_slash {
                    t = pre_len + 1;
                }
                let ghost t0 = t as int;
                while t < pv.len()
                    invariant
                        0 <= t0 <= t <= pv@.len(),
                        pv@ == path@,
                        rest@ == path@.subrange(t0, t as int),
                    decreases pv@.len() - t,
                {
                    rest.push(pv[t]);
                    assert(rest@ =~= path@.subrange(t0, t + 1));
                    t = t + 1;
                }
                proof {
                    let grest = path@.skip(pre_len as int);
                    if skip_slash {
                        assert(grest.len() > 0 && grest[0] == '/');
                        assert(rest@ =~= grest.skip(1));
                    } else {
                        if grest.len() > 0 {
                            assert(grest[0] == path@[pre_len as int]);
                        }
                        assert(rest@ =~= grest);
                    }
                }
                if rest.len() > 0 {
                    proof {
                        let st = strip_step(path@, p, best@, best_len as int);
                        assert(st.0 == rest@ && st.1 == pre_len as int);
                    }
                    best = rest;
                    best_len = pre_len;
                } else {
                    proof {
                        let st = strip_step(path@, p, best@, best_len as int);
                        assert(st.0 == best@ && st.1 == best_len as int);
                    }
                }
            } else {
                proof {
                    let st = strip_step(path@, p, best@, best_len as int);
                    assert(st.0 == best@ && st.1 == best_len as int);
                }
            }
        } else {
            proof {
                assert(dir_prefix(p) is None);
            }
        }
        i = i + 1;
    }
    text::chars_to_string(&best)
}

/// The normalized form of a path under an ordered category list: the
/// first matching category names it, or the path passes through.
pub open spec fn normalize_spec(cats: Seq<NormEntry>, path: Seq<char>) -> Seq<char>
    decreases cats.len(),
{
    if cats.len() == 0 {
        path
    } else if globs::set_matches(cats[0].set, path) {
        cats[0].name@ + seq![':'] + strip_spec(path, cats[0].patterns.deep_view())
    } else {
        normalize_spec(cats.drop_first(), path)
    }
}

impl PathNormalizer {
    /// Normalize a file path to `category:relative` form; a path no
    /// category matches passes through unchanged.
    pub fn normalize(&self, path: &str) -> (r: String)
        ensures
            r@ == normalize_spec(self.categories@, path@),
    {
        let ghost cats = self.categories@;
        proof {
            assert(cats.skip(0) =~= cats);
        }
        let mut i: usize = 0;
        while i < self.categories.len()
            invariant
                0 <= i <= cats.len(),
                cats == self.categories@,
                normalize_spec(cats, path@) == normalize_spec(cats.skip(i as int), path@),
            decreases cats.len() - i,
        {
            proof {
                assert(cats.skip(i as int)[0] == cats[i as int]);
                assert(cats.skip(i as int).drop_first() =~= cats.skip(i + 1));
            }
            let e = &self.categories[i];
            if crate::globs::globset_is_match(&e.set, path) {
                let relative = strip_category_prefix(path, &e.patterns);
                let mut out: Vec<char> = Vec::new();
                text::push_str_chars(&mut out, e.name.as_str());
                out.push(':');
                text::push_str_chars(&mut out, relative.as_str());
                proof {
                    assert(out@ =~= e.name@ + seq![':'] + relative@);
                }
                return text::chars_to_string(&out);
            }
            i = i + 1;
        }
        proof {
            assert(normalize_spec(cats.skip(i as int), path@) == path@);
        }
        let mut out: Vec<char> = Vec::new();
        text::push_str_chars(&mut out, path);
        text::chars_to_string(&out)
    }
}


/// The roles configuration: categories plus role definitions.
pub struct RolesConfig {
    /// Semantic path categories, merged over the built-in defaults once
    /// `expand_categories` has run.
    pub categories: CategoryMap,
    /// The role definitions.
    pub roles: Vec<RoleDefinition>,
}

impl RolesConfig {
    /// A configuration with no categories and no roles, as an absent
    /// roles file loads.
    pub fn empty() -> (r: RolesConfig)
        ensures
            r.categories.view_spec() == Seq::<(Seq<char>, Seq<Seq<char>>)>::empty(),
            r.roles@.len() == 0,
    {
        RolesConfig { categories: CategoryMap::new(), roles: Vec::new() }
    }

    /// Look up a role by name.
    pub fn get_role(&self, name: &str) -> (r: Option<&RoleDefinition>)
        ensures
            r is None ==> forall|k: int|
                0 <= k < self.roles@.len() ==> (#[trigger] self.roles@[k]).name@ != name@,
            r matches Some(role) ==> exists|k: int|
                0 <= k < self.roles@.len() && *role == #[trigger] self.roles@[k] && role.name@
                    == name@,
    {
        let name_s = String::from_str(name);
        let mut i: usize = 0;
        while i < self.roles.len()
            invariant
                0 <= i <= self.roles@.len(),
                name_s@ == name@,
                forall|k: int|
                    0 <= k < i ==> (#[trigger] self.roles@[k]).name@ != name@,
            decreases self.roles@.len() - i,
        {
            if self.roles[i].name == name_s {
                return Some(&self.roles[i]);
            }
            i = i + 1;
        }
        None
    }

    /// The user categories merged over the built-in defaults.
    pub fn merged_categories(&self) -> (m: CategoryMap)
        ensures
            m.view_spec() == merged_view(default_categories_spec(), self.categories.view_spec()),
    {
        let defaults = default_categories();
        merge_categories(&defaults, &self.categories)
    }

    /// Merge user categories over the defaults, then expand `{{category}}`
    /// macros in every role's path lists. An unknown category is a hard
    /// error that leaves the configuration unchanged.
    pub fn expand_categories(&mut self) -> (r: Result<(), CaptainHookError>)
        ensures
            r is Ok ==> final(self).categories.view_spec() == merged_view(
                default_categories_spec(),
                old(self).categories.view_spec(),
            ),
            r is Ok ==> final(self).roles@.len() == old(self).roles@.len(),
            r is Ok ==> forall|k: int|
                0 <= k < old(self).roles@.len() ==> {
                    let merged = merged_view(
                        default_categories_spec(),
                        old(self).categories.view_spec(),
                    );
                    &&& (#[trigger] final(self).roles@[k]).name@ == old(self).roles@[k].name@
                    &&& final(self).roles@[k].description@ == old(self).roles@[k].description@
                    &&& final(self).roles@[k].paths.allow_write.deep_view() == expand_spec(
                        old(self).roles@[k].paths.allow_write.deep_view(),
                        merged,
                    )
                    &&& final(self).roles@[k].paths.deny_write.deep_view() == expand_spec(
                        old(self).roles@[k].paths.deny_write.deep_view(),
                        merged,
                    )
                    &&& final(self).roles@[k].paths.allow_read.deep_view() == expand_spec(
                        old(self).roles@[k].paths.allow_read.deep_view(),
                        merged,
                    )
                },
            r is Ok <==> (forall|k: int|
                0 <= k < old(self).roles@.len() ==> {
                    let merged = merged_view(
                        default_categories_spec(),
                        old(self).categories.view_spec(),
                    );
                    &&& macros_known(
                        (#[trigger] old(self).roles@[k]).paths.allow_write.deep_view(),
                        merged,
                    )
                    &&& macros_known(old(self).roles@[k].paths.deny_write.deep_view(), merged)
                    &&& macros_known(old(self).roles@[k].paths.allow_read.deep_view(), merged)
                }),
            r matches Err(e) ==> e is ConfigParse && *final(self) == *old(self),
            r matches Err(e) ==> (e matches CaptainHookError::ConfigParse { path, reason }
                ==> exists|k: int, n: Seq<char>|
                #![trigger old(self).roles@[k], expand_reason_spec(old(self).roles@[k].name@, n)]
                {
                    &&& 0 <= k < old(self).roles@.len()
                    &&& find_in_view(
                        merged_view(default_categories_spec(), old(self).categories.view_spec()),
                        n,
                    ) is None
                    &&& reason@ == expand_reason_spec(old(self).roles@[k].name@, n)
                }),
    {
        let merged = self.merged_categories();
        let ghost mv = merged.view_spec();
        let mut new_roles: Vec<RoleDefinition> = Vec::new();
        let mut i: usize = 0;
        while i < self.roles.len()
            invariant
                0 <= i <= self.roles@.len(),
                mv == merged.view_spec(),
                mv == merged_view(default_categories_spec(), old(self).categories.view_spec()),
                self == old(self),
                new_roles@.len() == i,
                forall|k: int|
                    0 <= k < i ==> {
                        &&& macros_known(
                            (#[trigger] self.roles@[k]).paths.allow_write.deep_view(),
                            mv,
                        )
                        &&& macros_known(self.roles@[k].paths.deny_write.deep_view(), mv)
                        &&& macros_known(self.roles@[k].paths.allow_read.deep_view(), mv)
                    },
                forall|k: int|
                    0 <= k < i ==> {
                        &&& (#[trigger] new_roles@[k]).name@ == self.roles@[k].name@
                        &&& new_roles@[k].description@ == self.roles@[k].description@
                        &&& new_roles@[k].paths.allow_write.deep_view() == expand_spec(
                            self.roles@[k].paths.allow_write.deep_view(),
                            mv,
                        )
                        &&& new_roles@[k].paths.deny_write.deep_view() == expand_spec(
                            self.roles@[k].paths.deny_write.deep_view(),
                            mv,
                        )
                        &&& new_roles@[k].paths.allow_read.deep_view() == expand_spec(
                            self.roles@[k].paths.allow_read.deep_view(),
                            mv,
                        )
                    },
            decreases self.roles@.len() - i,
        {
            let role_name = self.roles[i].name.clone();
            let allow_write = match expand_macros(
                &self.roles[i].paths.allow_write,
                &merged,
                role_name.as_str(),
            ) {
                Ok(v) => v,
                Err(e) => {
                    proof {
                        assert(!macros_known(
                            self.roles@[i as int].paths.allow_write.deep_view(),
                            mv,
                        ));
                        match &e {
                            CaptainHookError::ConfigParse { path, reason } => {
                                let (i2, n) = choose|i2: int, n: Seq<char>|
                                    #![trigger self.roles@[i as int].paths.allow_write.deep_view()[i2], find_in_view(mv, n)]
                                    {
                                        &&& 0 <= i2
                                            < self.roles@[i as int].paths.allow_write.deep_view().len()
                                        &&& macro_name(
                                            self.roles@[i as int].paths.allow_write.deep_view()[i2],
                                        ) == Some(n)
                                        &&& find_in_view(mv, n) is None
                                        &&& reason@ == expand_reason_spec(role_name@, n)
                                    };
                                assert(old(self).roles@[i as int] == self.roles@[i as int]);
                                assert(reason@ == expand_reason_spec(
                                    old(self).roles@[i as int].name@,
                                    n,
                                ));
                                assert(find_in_view(
                                    merged_view(
                                        default_categories_spec(),
                                        old(self).categories.view_spec(),
                                    ),
                                    n,
                                ) is None);
                            },
                            _ => {},
                        }
                    }
                    return Err(e);
                },
            };
            let deny_write = match expand_macros(
                &self.roles[i].paths.deny_write,
                &merged,
                role_name.as_str(),
            ) {
                Ok(v) => v,
                Err(e) => {
                    proof {
                        assert(!macros_known(
                            self.roles@[i as int].paths.deny_write.deep_view(),
                            mv,
                        ));
                        match &e {
                            CaptainHookError::ConfigParse { path, reason } => {
                                let (i2, n) = choose|i2: int, n: Seq<char>|
                                    #![trigger self.roles@[i as int].paths.deny_write.deep_view()[i2], find_in_view(mv, n)]
                                    {
                                        &&& 0 <= i2
                                            < self.roles@[i as int].paths.deny_write.deep_view().len()
                                        &&& macro_name(
                                            self.roles@[i as int].paths.deny_write.deep_view()[i2],
                                        ) == Some(n)
                                        &&& find_in_view(mv, n) is None
                                        &&& reason@ == expand_reason_spec(role_name@, n)
                                    };
                                assert(old(self).roles@[i as int] == self.roles@[i as int]);
                                assert(reason@ == expand_reason_spec(
                                    old(self).roles@[i as int].name@,
                                    n,
                                ));
                                assert(find_in_view(
                                    merged_view(
                                        default_categories_spec(),
                                        old(self).categories.view_spec(),
                                    ),
                                    n,
                                ) is None);
                            },
                            _ => {},
                        }
                    }
                    return Err(e);
                },
            };
            let allow_read = match expand_macros(
                &self.roles[i].paths.allow_read,
                &merged,
                role_name.as_str(),
            ) {
                Ok(v) => v,
                Err(e) => {
                    proof {
                        assert(!macros_known(
                            self.roles@[i as int].paths.allow_read.deep_view(),
                            mv,
                        ));
                        match &e {
                            CaptainHookError::ConfigParse { path, reason } => {
                                let (i2, n) = choose|i2: int, n: Seq<char>|
                                    #![trigger self.roles@[i as int].paths.allow_read.deep_view()[i2], find_in_view(mv, n)]
                                    {
                                        &&& 0 <= i2
                                            < self.roles@[i as int].paths.allow_read.deep_view().len()
                                        &&& macro_name(
                                            self.roles@[i as int].paths.allow_read.deep_view()[i2],
                                        ) == Some(n)
                                        &&& find_in_view(mv, n) is None
                                        &&& reason@ == expand_reason_spec(role_name@, n)
                                    };
                                assert(old(self).roles@[i as int] == self.roles@[i as int]);
                                assert(reason@ == expand_reason_spec(
                                    old(self).roles@[i as int].name@,
                                    n,
                                ));
                                assert(find_in_view(
                                    merged_view(
                                        default_categories_spec(),
                                        old(self).categories.view_spec(),
                                    ),
                                    n,
                                ) is None);
                            },
                            _ => {},
                        }
                    }
                    return Err(e);
                },
            };
            new_roles.push(
                RoleDefinition {
                    name: role_name,
                    description: self.roles[i].description.clone(),
                    paths: PathPolicyConfig { allow_write, deny_write, allow_read },
                },
            );
            i = i + 1;
        }
        self.roles = new_roles;
        self.categories = merged;
        Ok(())
    }

    /// Build a path normalizer from this configuration's categories.
    /// Succeeds exactly when every non-empty category compiles.
    pub fn normalizer(&self) -> (r: Result<PathNormalizer, CaptainHookError>)
        ensures
            r is Ok <==> (forall|t: int|
                0 <= t < self.categories.view_spec().len() ==> ((
                #[trigger] self.categories.view_spec()[t]).1.len() > 0
                    ==> globs::list_compilable(self.categories.view_spec()[t].1))),
            r matches Ok(n) ==> entries_sorted(n.categories@) && entries_wf(n.categories@),
            r matches Err(e) ==> e is GlobPattern,
    {
        PathNormalizer::new(&self.categories)
    }
}

} // verus!
