use vstd::prelude::*;

use crate::parser::expressions::name::Name;

verus! {

/// The smallest of three natural numbers.
pub open spec fn min3(a: nat, b: nat, c: nat) -> nat {
    if a <= b && a <= c {
        a
    } else if b <= c {
        b
    } else {
        c
    }
}

/// The edit distance between the first `i` slots of `a` and the first `j` slots of `b`: the
/// number of insertions, deletions and substitutions that turn one prefix into the other.
pub open spec fn edit_distance(a: Seq<Option<char>>, b: Seq<Option<char>>, i: nat, j: nat) -> nat
    decreases i + j,
{
    if i == 0 {
        j
    } else if j == 0 {
        i
    } else {
        min3(
            edit_distance(a, b, (i - 1) as nat, j) + 1,
            edit_distance(a, b, i, (j - 1) as nat) + 1,
            edit_distance(a, b, (i - 1) as nat, (j - 1) as nat) + if a[i - 1] == b[j - 1] {
                0nat
            } else {
                1nat
            },
        )
    }
}

/// The Levenshtein distance between two whole sequences of slots.
pub open spec fn levenshtein(a: Seq<Option<char>>, b: Seq<Option<char>>) -> nat {
    edit_distance(a, b, a.len(), b.len())
}

/// The letters of a text, each in its own slot.
pub open spec fn letters(chars: Seq<char>) -> Seq<Option<char>> {
    chars.map_values(|c: char| Some(c))
}

/// The Levenshtein distance between two texts, compared letter by letter.
pub open spec fn text_distance(x: Seq<char>, y: Seq<char>) -> nat {
    levenshtein(letters(x), letters(y))
}

/// Only equal prefixes are at distance zero.
pub proof fn lemma_edit_distance_zero(a: Seq<Option<char>>, b: Seq<Option<char>>, i: nat, j: nat)
    requires
        i <= a.len(),
        j <= b.len(),
        edit_distance(a, b, i, j) == 0,
    ensures
        i == j,
        a.take(i as int) == b.take(j as int),
    decreases i + j,
{
    if i > 0 && j > 0 {
        lemma_edit_distance_zero(a, b, (i - 1) as nat, (j - 1) as nat);
        assert(a[i - 1] == b[j - 1]);
        assert(a.take(i as int) =~= a.take(i - 1).push(a[i - 1]));
        assert(b.take(j as int) =~= b.take(j - 1).push(b[j - 1]));
    } else {
        assert(a.take(0) =~= b.take(0));
    }
}

/// The distance between a prefix and itself is zero.
pub proof fn lemma_edit_distance_self(a: Seq<Option<char>>, i: nat)
    ensures
        edit_distance(a, a, i, i) == 0,
    decreases i,
{
    if i > 0 {
        lemma_edit_distance_self(a, (i - 1) as nat);
    }
}

/// The distance between two prefixes does not depend on their order.
pub proof fn lemma_edit_distance_symmetric(
    a: Seq<Option<char>>,
    b: Seq<Option<char>>,
    i: nat,
    j: nat,
)
    ensures
        edit_distance(a, b, i, j) == edit_distance(b, a, j, i),
    decreases i + j,
{
    if i > 0 && j > 0 {
        lemma_edit_distance_symmetric(a, b, (i - 1) as nat, j);
        lemma_edit_distance_symmetric(a, b, i, (j - 1) as nat);
        lemma_edit_distance_symmetric(a, b, (i - 1) as nat, (j - 1) as nat);
    }
}

/// The distance between two prefixes is at most the longer prefix's length.
pub proof fn lemma_edit_distance_bound(a: Seq<Option<char>>, b: Seq<Option<char>>, i: nat, j: nat)
    ensures
        edit_distance(a, b, i, j) <= if i <= j { j } else { i },
    decreases i + j,
{
    if i > 0 && j > 0 {
        lemma_edit_distance_bound(a, b, (i - 1) as nat, (j - 1) as nat);
    }
}

/// A trait to apply Levenshtein string distance functionality to strings. This allows strings
/// to calculate how close they are to another string, which is used by the compiler to give
/// suggestions for variables with close names when a variable can't be found.
pub trait Levenshtein {
    /// Returns the Levenshtein distance between this string and another string.
    fn distance_to(&self, other: &str) -> usize;
}

/// The letters of a string, each in its own slot.
fn slots_of(s: &str) -> (slots: Vec<Option<char>>)
    ensures
        slots@ == letters(s@),
{
    let char_len = s.unicode_len();
    let mut slots: Vec<Option<char>> = Vec::new();
    let mut i: usize = 0;
    while i < char_len
        invariant
            i <= char_len,
            char_len == s@.len(),
            slots@.len() == i,
            forall|k: int| 0 <= k < i ==> slots@[k] == letters(s@)[k],
        decreases char_len - i,
    {
        slots.push(Some(s.get_char(i)));
        i = i + 1;
    }
    assert(slots@ =~= letters(s@));
    slots
}

impl Levenshtein for str {
    /// Calculates how "close" two strings are: the number of letter removals, additions and
    /// substitutions that lead from one string to the other.
    fn distance_to(&self, other: &str) -> (res: usize)
        ensures
            res == text_distance(self@, other@),
    {
        let a = slots_of(self);
        let b = slots_of(other);
        let m = a.len();
        let n = b.len();
        let ghost sa = a@;
        let ghost sb = b@;

        let mut v0: Vec<usize> = Vec::new();
        let mut v1: Vec<usize> = Vec::new();

        let mut k: usize = 0;
        loop
            invariant_except_break
                k <= n,
                v0@.len() == k,
                forall|x: int| 0 <= x < k ==> v0@[x] == x,
            ensures
                v0@.len() == n + 1,
                forall|x: int| 0 <= x <= n ==> v0@[x] == x,
            decreases n - k,
        {
            v0.push(k);
            if k == n {
                break;
            }
            k = k + 1;
        }
        let _ = v0.len();
        assert(n < usize::MAX);

        let mut i: usize = 0;
        while i < m
            invariant
                m == sa.len(),
                n == sb.len(),
                a@ == sa,
                b@ == sb,
                i <= m,
                n < usize::MAX,
                v0@.len() == n + 1,
                v1@.len() == 0 || v1@.len() == n + 1,
                forall|x: int| 0 <= x <= n ==> v0@[x] == edit_distance(sa, sb, i as nat, x as nat),
            decreases m - i,
        {
            if v1.len() == 0 {
                v1.push(0);
            }
            v1.set(0, i + 1);
            let mut j: usize = 0;
            while j < n
                invariant
                    m == sa.len(),
                    n == sb.len(),
                    a@ == sa,
                    b@ == sb,
                    i < m,
                    j <= n,
                    n < usize::MAX,
                    v0@.len() == n + 1,
                    v1@.len() >= j + 1,
                    v1@.len() <= n + 1,
                    forall|x: int| 0 <= x <= n ==> v0@[x] == edit_distance(sa, sb, i as nat, x as nat),
                    forall|x: int| 0 <= x <= j ==> v1@[x] == edit_distance(sa, sb, (i + 1) as nat, x as nat),
                decreases n - j,
            {
                proof {
                    lemma_edit_distance_bound(sa, sb, i as nat, (j + 1) as nat);
                    lemma_edit_distance_bound(sa, sb, (i + 1) as nat, j as nat);
                    lemma_edit_distance_bound(sa, sb, i as nat, j as nat);
                    lemma_edit_distance_bound(sa, sb, (i + 1) as nat, (j + 1) as nat);
                }
                let deletion_cost = v0[j + 1] + 1;
                let insertion_cost = if v1[j] < usize::MAX { v1[j] + 1 } else { usize::MAX };
                let same = match (a[i], b[j]) {
                    (Some(x), Some(y)) => x == y,
                    (None, None) => true,
                    _ => false,
                };
                let substitution_cost = if same { v0[j] } else { v0[j] + 1 };
                if v1.len() <= j + 1 {
                    v1.push(0);
                }
                let best = if deletion_cost <= insertion_cost && deletion_cost <= substitution_cost {
                    deletion_cost
                } else if insertion_cost <= substitution_cost {
                    insertion_cost
                } else {
                    substitution_cost
                };
                v1.set(j + 1, best);
                j = j + 1;
            }
            let dummy = v0;
            v0 = v1;
            v1 = dummy;
            i = i + 1;
        }
        v0[n]
    }
}


/// A type of scope in the language. Scopes are able to be printed as a string representation,
/// and doing so will show their type.
#[derive(Debug, Clone, Copy, PartialEq, Eq, Structural)]
pub enum ScopeType {
    /// The body of a function declaration.
    Function,
    Either,
    OneOf,
    /// The global scope type. This is only ever used on a single scope in the whole program.
    Global,
    /// The inside of group declarations.
    Group,
    /// The inside of expression blocks.
    Block,
}

/// The value of a variable together with whether it has been evaluated at compile-time.
pub struct VariableValue<V> {
    pub value: V,
    pub has_been_compile_time_evaluated: bool,
}

impl<V> VariableValue<V> {
    /// The value of a newly declared variable, not yet evaluated at compile-time.
    pub fn new(value: V) -> (res: Self)
        ensures
            res.value == value,
            !res.has_been_compile_time_evaluated,
    {
        VariableValue { value, has_been_compile_time_evaluated: false }
    }
}

/// Why an operation on the scope tree failed.
#[derive(Debug, Clone, Copy, PartialEq, Eq, Structural)]
pub enum ScopeError {
    /// A variable with the name is already visible where a new one was declared; Cabin doesn't
    /// allow shadowing.
    VariableAlreadyExists,
    /// No variable (or represent-as declaration) with the name is visible from the scope.
    VariableNotFound,
    /// The global scope has no parent to exit to.
    ExitedGlobalScope,
    /// No scope with the label encloses the current scope.
    LabelNotFound,
}

/// The index of the first entry whose name has the given text, or -1 when there is none.
pub open spec fn first_index<T>(entries: Seq<(Name, T)>, key: Seq<char>) -> int
    decreases entries.len(),
{
    if entries.len() == 0 {
        -1
    } else if entries[0].0@ == key {
        0
    } else {
        let rest = first_index(entries.drop_first(), key);
        if rest < 0 {
            -1
        } else {
            rest + 1
        }
    }
}

/// The value stored under the given name in a list of named entries: the first entry with that name wins.
pub open spec fn entry_lookup<T>(entries: Seq<(Name, T)>, key: Seq<char>) -> Option<T> {
    let i = first_index(entries, key);
    if i >= 0 {
        Some(entries[i].1)
    } else {
        None
    }
}

/// `first_index` is the position of the first entry with the name, or -1 when no entry has it.
pub proof fn lemma_first_index<T>(entries: Seq<(Name, T)>, key: Seq<char>)
    ensures
        first_index(entries, key) == -1 <==> (forall|x: int|
            0 <= x < entries.len() ==> #[trigger] entries[x].0@ != key),
        first_index(entries, key) >= 0 ==> {
            &&& first_index(entries, key) < entries.len()
            &&& entries[first_index(entries, key)].0@ == key
            &&& forall|x: int| 0 <= x < first_index(entries, key) ==> #[trigger] entries[x].0@ != key
        },
        first_index(entries, key) >= -1,
    decreases entries.len(),
{
    if entries.len() > 0 && entries[0].0@ != key {
        let rest = entries.drop_first();
        lemma_first_index(rest, key);
        assert forall|x: int| 1 <= x < entries.len() implies #[trigger] entries[x].0@ == rest[x - 1].0@ by {}
        if first_index(rest, key) == -1 {
            assert forall|x: int| 0 <= x < entries.len() implies #[trigger] entries[x].0@ != key by {
                if x > 0 {
                    assert(rest[x - 1].0@ != key);
                }
            }
        } else {
            let r = first_index(rest, key);
            assert(entries[r + 1].0@ == key);
            assert forall|x: int| 0 <= x < r + 1 implies #[trigger] entries[x].0@ != key by {
                if x > 0 {
                    assert(rest[x - 1].0@ != key);
                }
            }
        }
    }
}

/// Two lists whose names agree position by position have the same first positions.
pub proof fn lemma_first_index_same_names<T, U>(a: Seq<(Name, T)>, b: Seq<(Name, U)>, key: Seq<char>)
    requires
        a.len() == b.len(),
        forall|x: int| 0 <= x < a.len() ==> #[trigger] a[x].0@ == b[x].0@,
    ensures
        first_index(a, key) == first_index(b, key),
    decreases a.len(),
{
    if a.len() > 0 {
        assert forall|x: int| 0 <= x < a.drop_first().len() implies #[trigger] a.drop_first()[x].0@
            == b.drop_first()[x].0@ by {
            assert(a[x + 1].0@ == b[x + 1].0@);
        }
        lemma_first_index_same_names(a.drop_first(), b.drop_first(), key);
    }
}

/// Appending an entry keeps every name's first position, and gives a name that had none its position.
pub proof fn lemma_first_index_push<T>(entries: Seq<(Name, T)>, e: (Name, T), key: Seq<char>)
    ensures
        first_index(entries.push(e), key) == if first_index(entries, key) >= 0 {
            first_index(entries, key)
        } else if e.0@ == key {
            entries.len() as int
        } else {
            -1
        },
{
    let p = entries.push(e);
    lemma_first_index(entries, key);
    lemma_first_index(p, key);
    assert forall|x: int| 0 <= x < entries.len() implies #[trigger] p[x] == entries[x] by {}
    if first_index(entries, key) >= 0 {
        let r = first_index(entries, key);
        assert(p[r].0@ == key);
    } else if e.0@ == key {
        assert(p[entries.len() as int].0@ == key);
    } else {
        assert forall|x: int| 0 <= x < p.len() implies #[trigger] p[x].0@ != key by {
            if x < entries.len() {
                assert(entries[x].0@ != key);
            }
        }
    }
}

/// Finds the first entry with the name of `key`.
fn find_entry<T>(entries: &Vec<(Name, T)>, key: &Name) -> (res: Option<usize>)
    ensures
        match res {
            Some(i) => i < entries@.len() && i as int == first_index(entries@, key@)
                && entries@[i as int].0@ == key@,
            None => first_index(entries@, key@) == -1,
        },
{
    proof {
        lemma_first_index(entries@, key@);
    }
    let mut i: usize = 0;
    while i < entries.len()
        invariant
            i <= entries@.len(),
            forall|x: int| 0 <= x < i ==> #[trigger] entries@[x].0@ != key@,
        decreases entries@.len() - i,
    {
        if entries[i].0.same_as(key) {
            proof {
                lemma_first_index(entries@, key@);
                let fi = first_index(entries@, key@);
                assert(entries@[i as int].0@ == key@);
                assert(fi != -1);
                if fi < i {
                    assert(entries@[fi].0@ != key@);
                }
                if fi > i {
                    assert(entries@[i as int].0@ != key@);
                }
            }
            return Some(i);
        }
        i = i + 1;
    }
    proof {
        lemma_first_index(entries@, key@);
    }
    None
}

/// A scope in the language: a node in the scope tree that's stored in `ScopeData`. Scopes
/// represent a section of code that has variables declared in it which are not accessible
/// outside of it, but are accessible to any child scope declared within it.
pub struct Scope<V, R> {
    /// The index of the scope which is the parent of this one; `None` only for the global scope.
    pub parent: Option<usize>,
    /// The indices of the child scopes of this one.
    children: Vec<usize>,
    /// The variables declared in this scope.
    variables: Vec<(Name, VariableValue<V>)>,
    /// The index of this scope in the arena.
    index: usize,
    /// The type of this scope.
    scope_type: ScopeType,
    label: Option<Name>,
    represent_as_declarations: Vec<(Name, R)>,
}

impl<V, R> Scope<V, R> {
    pub closed spec fn spec_parent(&self) -> Option<usize> {
        self.parent
    }

    pub closed spec fn spec_children(&self) -> Seq<usize> {
        self.children@
    }

    pub closed spec fn spec_variables(&self) -> Seq<(Name, VariableValue<V>)> {
        self.variables@
    }

    pub closed spec fn spec_index(&self) -> usize {
        self.index
    }

    pub closed spec fn spec_scope_type(&self) -> ScopeType {
        self.scope_type
    }

    pub closed spec fn spec_label(&self) -> Option<Name> {
        self.label
    }

    pub closed spec fn spec_represents(&self) -> Seq<(Name, R)> {
        self.represent_as_declarations@
    }

    /// The parent of this scope, if it is a valid index into `scopes`.
    pub open spec fn parent_in(&self, scopes: Seq<Scope<V, R>>) -> bool {
        self.spec_parent() matches Some(p) ==> p < scopes.len()
    }
}

/// The scope arena is well formed: every scope knows its own index, the global scope at index
/// 0 is the only scope without a parent, every other scope's parent comes before it, and every
/// child index points into the arena.
pub open spec fn scopes_wf<V, R>(scopes: Seq<Scope<V, R>>) -> bool {
    &&& scopes.len() >= 1
    &&& scopes[0].spec_parent() is None
    &&& forall|i: int| 0 <= i < scopes.len() ==> (#[trigger] scopes[i]).spec_index() == i
    &&& forall|i: int| 0 < i < scopes.len() ==> ((#[trigger] scopes[i]).spec_parent() matches Some(p) && p < i)
    &&& forall|i: int, c: int|
        0 <= i < scopes.len() && 0 <= c < scopes[i].spec_children().len() ==> #[trigger] scopes[i].spec_children()[c] < scopes.len()
}

/// The first scope, walking from scope `id` up through its parents, that declares a variable
/// with the given name; -1 when there is none.
pub open spec fn variable_owner<V, R>(scopes: Seq<Scope<V, R>>, id: int, key: Seq<char>) -> int
    decreases id,
{
    if id < 0 || id >= scopes.len() {
        -1
    } else if first_index(scopes[id].spec_variables(), key) >= 0 {
        id
    } else {
        match scopes[id].spec_parent() {
            Some(p) => if p < id {
                variable_owner(scopes, p as int, key)
            } else {
                -1
            },
            None => -1,
        }
    }
}

/// The variable with the given name that is visible from scope `id`, if any.
pub open spec fn lookup_variable<V, R>(scopes: Seq<Scope<V, R>>, id: int, key: Seq<char>) -> Option<VariableValue<V>> {
    let owner = variable_owner(scopes, id, key);
    if owner >= 0 {
        entry_lookup(scopes[owner].spec_variables(), key)
    } else {
        None
    }
}

/// The variable with the given name as seen from a scope whose parent lives in `scopes`.
pub open spec fn scope_lookup_variable<V, R>(scope: Scope<V, R>, scopes: Seq<Scope<V, R>>, key: Seq<char>) -> Option<VariableValue<V>> {
    if first_index(scope.spec_variables(), key) >= 0 {
        entry_lookup(scope.spec_variables(), key)
    } else {
        match scope.spec_parent() {
            Some(p) => lookup_variable(scopes, p as int, key),
            None => None,
        }
    }
}

/// The first scope, walking from scope `id` up through its parents, that holds a represent-as
/// declaration with the given name; -1 when there is none.
pub open spec fn represent_owner<V, R>(scopes: Seq<Scope<V, R>>, id: int, key: Seq<char>) -> int
    decreases id,
{
    if id < 0 || id >= scopes.len() {
        -1
    } else if first_index(scopes[id].spec_represents(), key) >= 0 {
        id
    } else {
        match scopes[id].spec_parent() {
            Some(p) => if p < id {
                represent_owner(scopes, p as int, key)
            } else {
                -1
            },
            None => -1,
        }
    }
}

/// The represent-as declaration with the given name that is visible from scope `id`, if any.
pub open spec fn lookup_represent<V, R>(scopes: Seq<Scope<V, R>>, id: int, key: Seq<char>) -> Option<R> {
    let owner = represent_owner(scopes, id, key);
    if owner >= 0 {
        entry_lookup(scopes[owner].spec_represents(), key)
    } else {
        None
    }
}

/// The represent-as declaration with the given name as seen from a scope whose parent lives in `scopes`.
pub open spec fn scope_lookup_represent<V, R>(scope: Scope<V, R>, scopes: Seq<Scope<V, R>>, key: Seq<char>) -> Option<R> {
    if first_index(scope.spec_represents(), key) >= 0 {
        entry_lookup(scope.spec_represents(), key)
    } else {
        match scope.spec_parent() {
            Some(p) => lookup_represent(scopes, p as int, key),
            None => None,
        }
    }
}

/// The measure that decreases when a lookup moves from a scope to its parent.
pub open spec fn parent_rank<V, R>(scope: Scope<V, R>) -> int {
    match scope.spec_parent() {
        Some(p) => p + 1,
        None => 0,
    }
}

impl<V, R> Scope<V, R> {
    /// The value of the variable declared in exactly this scope with the given name.
    pub fn get_variable_direct(&self, name: &Name) -> (res: Option<&V>)
        ensures
            match entry_lookup(self.spec_variables(), name@) {
                Some(vv) => res == Some(&vv.value),
                None => res is None,
            },
    {
        match find_entry(&self.variables, name) {
            Some(i) => Some(&self.variables[i].1.value),
            None => None,
        }
    }

    /// The declaration data of the variable declared in exactly this scope with the given name.
    pub fn get_variable_info_direct(&self, name: &Name) -> (res: Option<&VariableValue<V>>)
        ensures
            match entry_lookup(self.spec_variables(), name@) {
                Some(vv) => res == Some(&vv),
                None => res is None,
            },
    {
        match find_entry(&self.variables, name) {
            Some(i) => Some(&self.variables[i].1),
            None => None,
        }
    }

    /// The variable with the given name declared in this scope or, failing that, in the nearest
    /// ancestor scope that declares one.
    pub fn get_variable_info<'scopes>(&'scopes self, name: &Name, scopes: &'scopes [Self]) -> (res: Option<&'scopes VariableValue<V>>)
        requires
            scopes_wf(scopes@),
            self.parent_in(scopes@),
        ensures
            match scope_lookup_variable(*self, scopes@, name@) {
                Some(vv) => res == Some(&vv),
                None => res is None,
            },
        decreases parent_rank(*self),
    {
        match find_entry(&self.variables, name) {
            Some(i) => Some(&self.variables[i].1),
            None => match self.parent {
                Some(parent) => {
                    let scope = &scopes[parent];
                    proof {
                        assert(scope.spec_index() == parent);
                        assert(parent == 0 || (scope.spec_parent() matches Some(q) && q < parent));
                    }
                    scope.get_variable_info(name, scopes)
                },
                None => None,
            },
        }
    }

    /// The value of the variable with the given name declared in this scope or, failing that, in
    /// the nearest ancestor scope that declares one.
    pub fn get_variable<'scopes>(&'scopes self, name: &Name, scopes: &'scopes [Self]) -> (res: Option<&'scopes V>)
        requires
            scopes_wf(scopes@),
            self.parent_in(scopes@),
        ensures
            match scope_lookup_variable(*self, scopes@, name@) {
                Some(vv) => res == Some(&vv.value),
                None => res is None,
            },
    {
        match self.get_variable_info(name, scopes) {
            Some(info) => Some(&info.value),
            None => None,
        }
    }

    /// The represent-as declaration with the given name held by this scope or, failing that, by
    /// the nearest ancestor scope that holds one.
    pub fn get_represent_as<'scopes>(&'scopes self, name: &Name, scopes: &'scopes [Self]) -> (res: Option<&'scopes R>)
        requires
            scopes_wf(scopes@),
            self.parent_in(scopes@),
        ensures
            match scope_lookup_represent(*self, scopes@, name@) {
                Some(r) => res == Some(&r),
                None => res is None,
            },
        decreases parent_rank(*self),
    {
        match find_entry(&self.represent_as_declarations, name) {
            Some(i) => Some(&self.represent_as_declarations[i].1),
            None => match self.parent {
                Some(parent) => {
                    let scope = &scopes[parent];
                    proof {
                        assert(scope.spec_index() == parent);
                        assert(parent == 0 || (scope.spec_parent() matches Some(q) && q < parent));
                    }
                    scope.get_represent_as(name, scopes)
                },
                None => None,
            },
        }
    }
}


/// The entries after storing `t` under `name`: an existing entry with that name keeps its name
/// and takes the new value, and otherwise a new entry is appended.
pub open spec fn insert_entry<T>(entries: Seq<(Name, T)>, name: Name, t: T) -> Seq<(Name, T)> {
    let i = first_index(entries, name@);
    if i >= 0 {
        entries.update(i, (entries[i].0, t))
    } else {
        entries.push((name, t))
    }
}

/// The entries after giving the first entry named `key` the value `t`.
pub open spec fn replace_entry<T>(entries: Seq<(Name, T)>, key: Seq<char>, t: T) -> Seq<(Name, T)> {
    let i = first_index(entries, key);
    entries.update(i, (entries[i].0, t))
}

/// Stores `t` under the name of `name`, as `insert_entry` describes.
fn insert_into<T>(entries: &mut Vec<(Name, T)>, name: Name, t: T)
    ensures
        final(entries)@ == insert_entry(old(entries)@, name, t),
{
    match find_entry(entries, &name) {
        Some(i) => {
            let (existing, _previous) = entries.remove(i);
            entries.insert(i, (existing, t));
            assert(final(entries)@ =~= old(entries)@.update(i as int, (old(entries)@[i as int].0, t)));
        },
        None => {
            entries.push((name, t));
        },
    }
}

/// `b` is `a` with its variables replaced by `vars`.
pub open spec fn scope_with_variables<V, R>(a: Scope<V, R>, b: Scope<V, R>, vars: Seq<(Name, VariableValue<V>)>) -> bool {
    &&& b.spec_parent() == a.spec_parent()
    &&& b.spec_children() == a.spec_children()
    &&& b.spec_index() == a.spec_index()
    &&& b.spec_scope_type() == a.spec_scope_type()
    &&& b.spec_label() == a.spec_label()
    &&& b.spec_represents() == a.spec_represents()
    &&& b.spec_variables() == vars
}

/// `b` is `a` with its represent-as declarations replaced by `reps`.
pub open spec fn scope_with_represents<V, R>(a: Scope<V, R>, b: Scope<V, R>, reps: Seq<(Name, R)>) -> bool {
    &&& b.spec_parent() == a.spec_parent()
    &&& b.spec_children() == a.spec_children()
    &&& b.spec_index() == a.spec_index()
    &&& b.spec_scope_type() == a.spec_scope_type()
    &&& b.spec_label() == a.spec_label()
    &&& b.spec_represents() == reps
    &&& b.spec_variables() == a.spec_variables()
}

/// `b` is `a` with `child` added to its children.
pub open spec fn scope_with_child<V, R>(a: Scope<V, R>, b: Scope<V, R>, child: usize) -> bool {
    &&& b.spec_parent() == a.spec_parent()
    &&& b.spec_children() == a.spec_children().push(child)
    &&& b.spec_index() == a.spec_index()
    &&& b.spec_scope_type() == a.spec_scope_type()
    &&& b.spec_label() == a.spec_label()
    &&& b.spec_represents() == a.spec_represents()
    &&& b.spec_variables() == a.spec_variables()
}

/// `s` is a newly entered scope: empty, at `index`, inside `parent`.
pub open spec fn fresh_scope<V, R>(s: Scope<V, R>, index: usize, parent: Option<usize>, scope_type: ScopeType, label: Option<Name>) -> bool {
    &&& s.spec_parent() == parent
    &&& s.spec_children().len() == 0
    &&& s.spec_index() == index
    &&& s.spec_scope_type() == scope_type
    &&& s.spec_label() == label
    &&& s.spec_represents().len() == 0
    &&& s.spec_variables().len() == 0
}

/// The first scope, walking from scope `id` up through its parents, whose label has the given
/// text; -1 when there is none.
pub open spec fn label_owner<V, R>(scopes: Seq<Scope<V, R>>, id: int, key: Seq<char>) -> int
    decreases id,
{
    if id < 0 || id >= scopes.len() {
        -1
    } else if scopes[id].spec_label() matches Some(l) && l@ == key {
        id
    } else {
        match scopes[id].spec_parent() {
            Some(p) => if p < id {
                label_owner(scopes, p as int, key)
            } else {
                -1
            },
            None => -1,
        }
    }
}

/// The variables visible from scope `id`, as name and value: those of the scope itself first,
/// then those of each ancestor in turn up to the global scope.
pub open spec fn visible_variables<V, R>(scopes: Seq<Scope<V, R>>, id: int) -> Seq<(Name, V)>
    decreases id,
{
    if id < 0 || id >= scopes.len() {
        Seq::empty()
    } else {
        let own = scopes[id].spec_variables().map_values(|e: (Name, VariableValue<V>)| (e.0, e.1.value));
        match scopes[id].spec_parent() {
            Some(p) => if p < id {
                own + visible_variables(scopes, p as int)
            } else {
                own
            },
            None => own,
        }
    }
}

/// The represent-as declarations visible from scope `id`: the scope's own first, then each
/// ancestor's in turn.
pub open spec fn visible_represents<V, R>(scopes: Seq<Scope<V, R>>, id: int) -> Seq<(Name, R)>
    decreases id,
{
    if id < 0 || id >= scopes.len() {
        Seq::empty()
    } else {
        let own = scopes[id].spec_represents();
        match scopes[id].spec_parent() {
            Some(p) => if p < id {
                own + visible_represents(scopes, p as int)
            } else {
                own
            },
            None => own,
        }
    }
}

/// Seen from scope `id`, a scope's own lookup agrees with the lookup through the arena.
pub proof fn lemma_scope_lookup<V, R>(scopes: Seq<Scope<V, R>>, id: int, key: Seq<char>)
    requires
        scopes_wf(scopes),
        0 <= id < scopes.len(),
    ensures
        scope_lookup_variable(scopes[id], scopes, key) == lookup_variable(scopes, id, key),
        scope_lookup_represent(scopes[id], scopes, key) == lookup_represent(scopes, id, key),
        scopes[id].parent_in(scopes),
{
    if id > 0 {
        assert(scopes[id].spec_parent() matches Some(p) && p < id);
    }
}

impl<V, R> Scope<V, R> {
    /// Gives the variable declared in exactly this scope with the given name a new value, which
    /// is not yet evaluated at compile-time. The value is handed back when no such variable exists.
    fn reassign_variable_direct(&mut self, name: &Name, value: V) -> (res: Result<(), V>)
        ensures
            first_index(old(self).spec_variables(), name@) >= 0 ==> res is Ok && scope_with_variables(
                *old(self),
                *final(self),
                replace_entry(
                    old(self).spec_variables(),
                    name@,
                    VariableValue { value, has_been_compile_time_evaluated: false },
                ),
            ),
            first_index(old(self).spec_variables(), name@) < 0 ==> res == Err::<(), V>(value) && *final(self) == *old(self),
    {
        match find_entry(&self.variables, name) {
            Some(i) => {
                let (existing, _previous) = self.variables.remove(i);
                self.variables.insert(i, (existing, VariableValue { value, has_been_compile_time_evaluated: false }));
                assert(self.variables@ =~= replace_entry(
                    old(self).spec_variables(),
                    name@,
                    VariableValue { value, has_been_compile_time_evaluated: false },
                ));
                Ok(())
            },
            None => Err(value),
        }
    }

    /// Gives the represent-as declaration held by exactly this scope with the given name a new
    /// value, which is handed back when no such declaration exists.
    fn reassign_represent_direct(&mut self, name: &Name, value: R) -> (res: Result<(), R>)
        ensures
            first_index(old(self).spec_represents(), name@) >= 0 ==> res is Ok && scope_with_represents(
                *old(self),
                *final(self),
                replace_entry(old(self).spec_represents(), name@, value),
            ),
            first_index(old(self).spec_represents(), name@) < 0 ==> res == Err::<(), R>(value) && *final(self) == *old(self),
    {
        match find_entry(&self.represent_as_declarations, name) {
            Some(i) => {
                let (existing, _previous) = self.represent_as_declarations.remove(i);
                self.represent_as_declarations.insert(i, (existing, value));
                assert(self.represent_as_declarations@ =~= replace_entry(old(self).spec_represents(), name@, value));
                Ok(())
            },
            None => Err(value),
        }
    }

    /// Marks the variable declared in exactly this scope with the given name as evaluated at
    /// compile-time; fails when no such variable exists.
    fn set_evaluated_direct(&mut self, name: &Name) -> (res: Result<(), ScopeError>)
        ensures
            first_index(old(self).spec_variables(), name@) >= 0 ==> res is Ok && scope_with_variables(
                *old(self),
                *final(self),
                replace_entry(
                    old(self).spec_variables(),
                    name@,
                    VariableValue {
                        value: entry_lookup(old(self).spec_variables(), name@)->0.value,
                        has_been_compile_time_evaluated: true,
                    },
                ),
            ),
            first_index(old(self).spec_variables(), name@) < 0 ==> res == Err::<(), ScopeError>(ScopeError::VariableNotFound)
                && *final(self) == *old(self),
    {
        match find_entry(&self.variables, name) {
            Some(i) => {
                let (existing, mut previous) = self.variables.remove(i);
                previous.has_been_compile_time_evaluated = true;
                self.variables.insert(i, (existing, previous));
                assert(self.variables@ =~= replace_entry(
                    old(self).spec_variables(),
                    name@,
                    VariableValue {
                        value: entry_lookup(old(self).spec_variables(), name@)->0.value,
                        has_been_compile_time_evaluated: true,
                    },
                ));
                Ok(())
            },
            None => Err(ScopeError::VariableNotFound),
        }
    }
}

/// Current scope data for the language. The scopes in the language are a tree, with the root
/// being the global scope, held as an arena: a flat vector of all scopes in which a scope's
/// parent and children are indices. Scopes are never removed, so their indices act as
/// permanent unique IDs. This also keeps track of the current scope.
pub struct ScopeData<V, R> {
    /// The arena of scopes.
    scopes: Vec<Scope<V, R>>,
    /// The id of the current scope.
    current_scope: usize,
}

impl<V, R> ScopeData<V, R> {
    /// The scopes of the arena, in index order.
    pub closed spec fn spec_scopes(&self) -> Seq<Scope<V, R>> {
        self.scopes@
    }

    /// The id of the current scope.
    pub closed spec fn current_id(&self) -> usize {
        self.current_scope
    }

    /// The arena is well formed and the current scope is one of its scopes.
    pub open spec fn wf(&self) -> bool {
        &&& scopes_wf(self.spec_scopes())
        &&& self.current_id() < self.spec_scopes().len()
    }

    /// Creates a new scope data with an empty global scope, which is current.
    pub fn global() -> (res: Self)
        ensures
            res.wf(),
            res.spec_scopes().len() == 1,
            res.current_id() == 0,
            fresh_scope(res.spec_scopes()[0], 0, None, ScopeType::Global, None),
    {
        let mut scopes = Vec::new();
        scopes.push(Scope {
            scope_type: ScopeType::Global,
            index: 0,
            children: Vec::new(),
            variables: Vec::new(),
            parent: None,
            label: None,
            represent_as_declarations: Vec::new(),
        });
        ScopeData { scopes, current_scope: 0 }
    }

    /// The current scope.
    fn current(&self) -> (res: &Scope<V, R>)
        requires
            self.wf(),
        ensures
            *res == self.spec_scopes()[self.current_id() as int],
    {
        &self.scopes[self.current_scope]
    }

    /// The scope with the given id, or `None` if no scope has that id.
    pub fn get_scope_from_id(&self, id: usize) -> (res: Option<&Scope<V, R>>)
        ensures
            res == if id < self.spec_scopes().len() {
                Some(&self.spec_scopes()[id as int])
            } else {
                None
            },
    {
        if id < self.scopes.len() {
            Some(&self.scopes[id])
        } else {
            None
        }
    }

    /// The value of the variable with the given name that is visible from the current scope:
    /// declared in it or in one of its ancestors.
    pub fn get_variable(&self, name: &Name) -> (res: Option<&V>)
        requires
            self.wf(),
        ensures
            match lookup_variable(self.spec_scopes(), self.current_id() as int, name@) {
                Some(vv) => res == Some(&vv.value),
                None => res is None,
            },
    {
        proof {
            lemma_scope_lookup(self.spec_scopes(), self.current_id() as int, name@);
        }
        self.current().get_variable(name, self.scopes.as_slice())
    }

    /// The represent-as declaration with the given name that is visible from the current scope.
    pub fn get_represent_as(&self, name: &Name) -> (res: Option<&R>)
        requires
            self.wf(),
        ensures
            match lookup_represent(self.spec_scopes(), self.current_id() as int, name@) {
                Some(r) => res == Some(&r),
                None => res is None,
            },
    {
        proof {
            lemma_scope_lookup(self.spec_scopes(), self.current_id() as int, name@);
        }
        self.current().get_represent_as(name, self.scopes.as_slice())
    }

    /// The declaration data of the variable with the given name that is visible from the current scope.
    pub fn get_variable_info(&self, name: &Name) -> (res: Option<&VariableValue<V>>)
        requires
            self.wf(),
        ensures
            match lookup_variable(self.spec_scopes(), self.current_id() as int, name@) {
                Some(vv) => res == Some(&vv),
                None => res is None,
            },
    {
        proof {
            lemma_scope_lookup(self.spec_scopes(), self.current_id() as int, name@);
        }
        self.current().get_variable_info(name, self.scopes.as_slice())
    }

    /// The value of the variable with the given name that is visible from the scope with the
    /// given id, or `None` if there is none or no scope has that id.
    pub fn get_variable_from_id(&self, name: &Name, id: usize) -> (res: Option<&V>)
        requires
            self.wf(),
        ensures
            match lookup_variable(self.spec_scopes(), id as int, name@) {
                Some(vv) => res == Some(&vv.value),
                None => res is None,
            },
    {
        match self.get_scope_from_id(id) {
            Some(scope) => {
                proof {
                    lemma_scope_lookup(self.spec_scopes(), id as int, name@);
                }
                scope.get_variable(name, self.scopes.as_slice())
            },
            None => None,
        }
    }

    /// The represent-as declaration with the given name that is visible from the scope with the given id.
    pub fn get_represent_from_id(&self, name: &Name, id: usize) -> (res: Option<&R>)
        requires
            self.wf(),
        ensures
            match lookup_represent(self.spec_scopes(), id as int, name@) {
                Some(r) => res == Some(&r),
                None => res is None,
            },
    {
        match self.get_scope_from_id(id) {
            Some(scope) => {
                proof {
                    lemma_scope_lookup(self.spec_scopes(), id as int, name@);
                }
                scope.get_represent_as(name, self.scopes.as_slice())
            },
            None => None,
        }
    }
}


/// `after` is `before` once a new scope of the given type and label was entered: the new scope
/// is appended to the arena as a child of the previously current scope and becomes current.
pub open spec fn entered_scope<V, R>(before: ScopeData<V, R>, after: ScopeData<V, R>, scope_type: ScopeType, label: Option<Name>) -> bool {
    &&& after.wf()
    &&& after.spec_scopes().len() == before.spec_scopes().len() + 1
    &&& after.current_id() == before.spec_scopes().len()
    &&& fresh_scope(after.spec_scopes().last(), before.spec_scopes().len() as usize, Some(before.current_id()), scope_type, label)
    &&& scope_with_child(
        before.spec_scopes()[before.current_id() as int],
        after.spec_scopes()[before.current_id() as int],
        before.spec_scopes().len() as usize,
    )
    &&& forall|k: int|
        0 <= k < before.spec_scopes().len() && k != before.current_id() ==> #[trigger] after.spec_scopes()[k]
            == before.spec_scopes()[k]
}

/// `after` and `res` are what exiting the current scope of `before` gives: the parent becomes
/// current, or, for the global scope, nothing changes and the exit fails.
pub open spec fn exited_scope<V, R>(before: ScopeData<V, R>, after: ScopeData<V, R>, res: Result<(), ScopeError>) -> bool {
    &&& after.wf()
    &&& after.spec_scopes() == before.spec_scopes()
    &&& match before.spec_scopes()[before.current_id() as int].spec_parent() {
        Some(p) => res is Ok && after.current_id() == p,
        None => res == Err::<(), ScopeError>(ScopeError::ExitedGlobalScope) && after.current_id() == before.current_id(),
    }
}

/// `after` and `res` are what declaring `name` with `value` in scope `id` of `before` gives:
/// an error, changing nothing, when the name is already visible from scope `id`, and
/// otherwise the variable, not yet evaluated, stored in scope `id`.
pub open spec fn declared_variable<V, R>(before: ScopeData<V, R>, after: ScopeData<V, R>, name: Name, value: V, id: usize, res: Result<(), ScopeError>) -> bool {
    &&& after.wf()
    &&& after.current_id() == before.current_id()
    &&& lookup_variable(before.spec_scopes(), id as int, name@) is Some ==> res
        == Err::<(), ScopeError>(ScopeError::VariableAlreadyExists) && after.spec_scopes() == before.spec_scopes()
    &&& lookup_variable(before.spec_scopes(), id as int, name@) is None ==> {
        &&& res is Ok
        &&& after.spec_scopes().len() == before.spec_scopes().len()
        &&& scope_with_variables(
            before.spec_scopes()[id as int],
            after.spec_scopes()[id as int],
            insert_entry(
                before.spec_scopes()[id as int].spec_variables(),
                name,
                VariableValue { value, has_been_compile_time_evaluated: false },
            ),
        )
        &&& forall|k: int|
            0 <= k < before.spec_scopes().len() && k != id ==> #[trigger] after.spec_scopes()[k]
                == before.spec_scopes()[k]
    }
}

/// `after` and `res` are what reassigning the variable named `key` to `value` from scope `id`
/// of `before` gives: the nearest scope from `id` up that declares it holds the new value, not
/// yet evaluated; when no scope does, the reassignment fails and nothing changes.
pub open spec fn reassigned_variable<V, R>(before: ScopeData<V, R>, after: ScopeData<V, R>, key: Seq<char>, value: V, id: usize, res: Result<(), ScopeError>) -> bool {
    &&& after.wf()
    &&& after.current_id() == before.current_id()
    &&& variable_owner(before.spec_scopes(), id as int, key) >= 0 ==> {
        let o = variable_owner(before.spec_scopes(), id as int, key);
        &&& res is Ok
        &&& after.spec_scopes().len() == before.spec_scopes().len()
        &&& scope_with_variables(
            before.spec_scopes()[o],
            after.spec_scopes()[o],
            replace_entry(
                before.spec_scopes()[o].spec_variables(),
                key,
                VariableValue { value, has_been_compile_time_evaluated: false },
            ),
        )
        &&& forall|k: int|
            0 <= k < before.spec_scopes().len() && k != o ==> #[trigger] after.spec_scopes()[k]
                == before.spec_scopes()[k]
    }
    &&& variable_owner(before.spec_scopes(), id as int, key) < 0 ==> res == Err::<(), ScopeError>(
        ScopeError::VariableNotFound,
    ) && after.spec_scopes() == before.spec_scopes()
}

impl<V, R> ScopeData<V, R> {
    /// Enters a new scope without a label: a new scope of the given type is created as a child of
    /// the current scope and becomes the current scope.
    pub fn enter_new_unlabeled_scope(&mut self, scope_type: ScopeType)
        requires
            old(self).wf(),
        ensures
            entered_scope(*old(self), *final(self), scope_type, None),
    {
        self.push_child_scope(scope_type, None);
    }

    /// Enters a new labeled scope: a new scope of the given type and label is created as a child
    /// of the current scope and becomes the current scope.
    pub fn enter_new_scope(&mut self, scope_type: ScopeType, label: Name)
        requires
            old(self).wf(),
        ensures
            entered_scope(*old(self), *final(self), scope_type, Some(label)),
    {
        self.push_child_scope(scope_type, Some(label));
    }

    fn push_child_scope(&mut self, scope_type: ScopeType, label: Option<Name>)
        requires
            old(self).wf(),
        ensures
            entered_scope(*old(self), *final(self), scope_type, label),
    {
        let new_id = self.scopes.len();
        self.scopes.push(Scope {
            variables: Vec::new(),
            index: new_id,
            parent: Some(self.current_scope),
            children: Vec::new(),
            scope_type,
            label,
            represent_as_declarations: Vec::new(),
        });
        let current = self.current_scope;
        let mut scope = self.scopes.remove(current);
        scope.children.push(new_id);
        self.scopes.insert(current, scope);
        let _ = self.scopes.len();
        proof {
            let o = old(self).spec_scopes();
            let n = self.scopes@;
            assert forall|k: int| 0 <= k < o.len() && k != current implies #[trigger] n[k] == o[k] by {}
            assert forall|i: int, c: int|
                0 <= i < n.len() && 0 <= c < n[i].spec_children().len() implies #[trigger] n[i].spec_children()[c] < n.len() by {
                if i < o.len() && i != current {
                    assert(n[i] == o[i]);
                } else if i == current {
                    if c < o[i].spec_children().len() {
                        assert(n[i].spec_children()[c] == o[i].spec_children()[c]);
                    }
                }
            }
            assert forall|i: int| 0 <= i < n.len() implies (#[trigger] n[i]).spec_index() == i by {
                if i < o.len() && i != current {
                    assert(n[i] == o[i]);
                }
            }
            assert forall|i: int| 0 < i < n.len() implies ((#[trigger] n[i]).spec_parent() matches Some(p) && p < i) by {
                if i < o.len() && i != current {
                    assert(n[i] == o[i]);
                }
            }
            if current != 0 {
                assert(n[0] == o[0]);
            }
        }
        self.current_scope = new_id;
    }

    /// Exits the current scope, making its parent the current scope. Fails, leaving everything
    /// as it was, when the current scope is the global scope, which has no parent.
    pub fn exit_scope(&mut self) -> (res: Result<(), ScopeError>)
        requires
            old(self).wf(),
        ensures
            exited_scope(*old(self), *final(self), res),
    {
        match self.current().parent {
            Some(parent) => {
                proof {
                    let c = self.current_id() as int;
                    if c > 0 {
                        assert(self.spec_scopes()[c].spec_parent() matches Some(p) && p < c);
                    }
                }
                self.current_scope = parent;
                Ok(())
            },
            None => Err(ScopeError::ExitedGlobalScope),
        }
    }

    /// Exits scopes until the current scope is the nearest enclosing scope with the given label.
    /// When no enclosing scope has it, every scope up to the global scope is exited and the
    /// exit from the global scope fails.
    pub fn exit_to_label(&mut self, label: Name) -> (res: Result<(), ScopeError>)
        requires
            old(self).wf(),
        ensures
            final(self).wf(),
            final(self).spec_scopes() == old(self).spec_scopes(),
            label_owner(old(self).spec_scopes(), old(self).current_id() as int, label@) >= 0 ==> res is Ok
                && final(self).current_id() == label_owner(old(self).spec_scopes(), old(self).current_id() as int, label@),
            label_owner(old(self).spec_scopes(), old(self).current_id() as int, label@) < 0 ==> res == Err::<
                (),
                ScopeError,
            >(ScopeError::ExitedGlobalScope) && final(self).current_id() == 0,
    {
        let ghost start = old(self).current_id() as int;
        loop
            invariant
                self.wf(),
                start == old(self).current_id(),
                self.spec_scopes() == old(self).spec_scopes(),
                label_owner(self.spec_scopes(), start, label@) == label_owner(
                    self.spec_scopes(),
                    self.current_id() as int,
                    label@,
                ),
            decreases self.current_id(),
        {
            let current = self.current();
            let matches_label = match &current.label {
                Some(current_label) => current_label.same_as(&label),
                None => false,
            };
            if matches_label {
                proof {
                    let c = self.current_id() as int;
                    assert(self.spec_scopes()[c].spec_label() == current.label);
                    assert(label_owner(self.spec_scopes(), c, label@) == c);
                    assert(label_owner(self.spec_scopes(), start, label@) == c);
                    assert(label_owner(old(self).spec_scopes(), old(self).current_id() as int, label@) == c);
                }
                return Ok(());
            }
            let ghost before = self.current_id();
            match self.exit_scope() {
                Ok(()) => {},
                Err(error) => {
                    proof {
                        if before != 0 {
                            assert(self.spec_scopes()[before as int].spec_parent() is Some);
                        }
                        assert(self.spec_scopes()[before as int].spec_label() == current.label);
                        assert(label_owner(self.spec_scopes(), before as int, label@) == -1);
                    }
                    return Err(error);
                },
            }
        }
    }

    /// The unique id of the current scope: its index in the arena, which never changes.
    pub fn unique_id(&self) -> (res: usize)
        ensures
            res == self.current_id(),
    {
        self.current_scope
    }

    /// Makes the scope with the given id current and returns the id of the previously current scope.
    pub fn set_current_scope(&mut self, id: usize) -> (res: usize)
        requires
            old(self).wf(),
            id < old(self).spec_scopes().len(),
        ensures
            final(self).wf(),
            res == old(self).current_id(),
            final(self).current_id() == id,
            final(self).spec_scopes() == old(self).spec_scopes(),
    {
        let previous = self.current_scope;
        self.current_scope = id;
        previous
    }

    /// The unique id of the global scope, which is always 0.
    pub fn global_id(&self) -> (res: usize)
        ensures
            res == 0,
    {
        0
    }

    /// The global scope, found by walking up from the current scope through its parents.
    pub fn get_global_scope(&self) -> (res: &Scope<V, R>)
        requires
            self.wf(),
        ensures
            *res == self.spec_scopes()[0],
    {
        let mut current = self.current();
        loop
            invariant
                self.wf(),
                current.spec_index() < self.spec_scopes().len(),
                *current == self.spec_scopes()[current.spec_index() as int],
            ensures
                *current == self.spec_scopes()[0],
            decreases current.spec_index(),
        {
            proof {
                let c = current.spec_index() as int;
                if c > 0 {
                    assert(self.spec_scopes()[c].spec_parent() matches Some(p) && p < c);
                }
            }
            match current.parent {
                Some(parent_index) => {
                    current = &self.scopes[parent_index];
                },
                None => {
                    break;
                },
            }
        }
        current
    }
}


/// Replacing one scope by another with the same parent, index and children keeps the arena well formed.
proof fn lemma_wf_replace<V, R>(o: Seq<Scope<V, R>>, n: Seq<Scope<V, R>>, at: int)
    requires
        scopes_wf(o),
        0 <= at < o.len(),
        n.len() == o.len(),
        forall|k: int| 0 <= k < o.len() && k != at ==> #[trigger] n[k] == o[k],
        n[at].spec_parent() == o[at].spec_parent(),
        n[at].spec_index() == o[at].spec_index(),
        n[at].spec_children() == o[at].spec_children(),
    ensures
        scopes_wf(n),
{
    assert forall|i: int| 0 <= i < n.len() implies (#[trigger] n[i]).spec_index() == i by {
        if i != at {
            assert(n[i] == o[i]);
        }
    }
    assert forall|i: int| 0 < i < n.len() implies ((#[trigger] n[i]).spec_parent() matches Some(p) && p < i) by {
        if i != at {
            assert(n[i] == o[i]);
        }
    }
    assert forall|i: int, c: int|
        0 <= i < n.len() && 0 <= c < n[i].spec_children().len() implies #[trigger] n[i].spec_children()[c] < n.len() by {
        if i != at {
            assert(n[i] == o[i]);
        }
    }
    if at != 0 {
        assert(n[0] == o[0]);
    }
}

/// The variables visible from a scope whose parent lives in `scopes`: its own, then those
/// visible from its parent.
pub open spec fn scope_visible_variables<V, R>(scope: Scope<V, R>, scopes: Seq<Scope<V, R>>) -> Seq<(Name, V)> {
    scope.spec_variables().map_values(|e: (Name, VariableValue<V>)| (e.0, e.1.value)) + match scope.spec_parent() {
        Some(p) => visible_variables(scopes, p as int),
        None => Seq::empty(),
    }
}

/// The represent-as declarations visible from a scope whose parent lives in `scopes`: its own,
/// then those visible from its parent.
pub open spec fn scope_visible_represents<V, R>(scope: Scope<V, R>, scopes: Seq<Scope<V, R>>) -> Seq<(Name, R)> {
    scope.spec_represents() + match scope.spec_parent() {
        Some(p) => visible_represents(scopes, p as int),
        None => Seq::empty(),
    }
}

/// Seen from scope `id`, what a scope itself lists as visible agrees with the arena.
pub proof fn lemma_scope_visible<V, R>(scopes: Seq<Scope<V, R>>, id: int)
    requires
        scopes_wf(scopes),
        0 <= id < scopes.len(),
    ensures
        scope_visible_variables(scopes[id], scopes) == visible_variables(scopes, id),
        scope_visible_represents(scopes[id], scopes) == visible_represents(scopes, id),
        scopes[id].parent_in(scopes),
{
    if id > 0 {
        assert(scopes[id].spec_parent() matches Some(p) && p < id);
    }
    let own = scopes[id].spec_variables().map_values(|e: (Name, VariableValue<V>)| (e.0, e.1.value));
    assert(own + Seq::<(Name, V)>::empty() =~= own);
    assert(scopes[id].spec_represents() + Seq::<(Name, R)>::empty() =~= scopes[id].spec_represents());
}

impl<V, R> Scope<V, R> {
    /// All variables visible from this scope, as name and value: its own first, then each
    /// ancestor's in turn up to the global scope.
    pub fn get_variables<'scopes>(&'scopes self, scopes: &'scopes [Self]) -> (res: Vec<(&'scopes Name, &'scopes V)>)
        requires
            scopes_wf(scopes@),
            self.parent_in(scopes@),
        ensures
            refs_match(res@, scope_visible_variables(*self, scopes@)),
        decreases parent_rank(*self),
    {
        let ghost own = self.spec_variables().map_values(|e: (Name, VariableValue<V>)| (e.0, e.1.value));
        let mut variables: Vec<(&Name, &V)> = Vec::new();
        let mut j: usize = 0;
        while j < self.variables.len()
            invariant
                j <= self.spec_variables().len(),
                own == self.spec_variables().map_values(|e: (Name, VariableValue<V>)| (e.0, e.1.value)),
                refs_match(variables@, own.take(j as int)),
            decreases self.spec_variables().len() - j,
        {
            let entry = &self.variables[j];
            variables.push((&entry.0, &entry.1.value));
            proof {
                assert(own.take(j + 1) =~= own.take(j as int).push(own[j as int]));
            }
            j = j + 1;
        }
        proof {
            assert(own.take(j as int) =~= own);
        }
        if let Some(parent) = self.parent {
            let scope = &scopes[parent];
            proof {
                lemma_scope_visible(scopes@, parent as int);
                assert(scope.spec_index() == parent);
                assert(parent == 0 || (scope.spec_parent() matches Some(q) && q < parent));
            }
            let inherited = scope.get_variables(scopes);
            let ghost before = variables@;
            let mut k: usize = 0;
            while k < inherited.len()
                invariant
                    k <= inherited@.len(),
                    variables@ == before + inherited@.take(k as int),
                decreases inherited@.len() - k,
            {
                variables.push(inherited[k]);
                proof {
                    assert(inherited@.take(k + 1) =~= inherited@.take(k as int).push(inherited@[k as int]));
                    assert(before + inherited@.take(k + 1) =~= (before + inherited@.take(k as int)).push(inherited@[k as int]));
                }
                k = k + 1;
            }
            proof {
                assert(inherited@.take(k as int) =~= inherited@);
                let full = scope_visible_variables(*self, scopes@);
                let next = visible_variables(scopes@, parent as int);
                assert(full == own + next);
                assert forall|x: int| 0 <= x < variables@.len() implies *(#[trigger] variables@[x]).0 == full[x].0
                    && *variables@[x].1 == full[x].1 by {
                    if x < own.len() {
                        assert(variables@[x] == before[x]);
                    } else {
                        assert(variables@[x] == inherited@[x - own.len()]);
                    }
                }
            }
        } else {
            proof {
                assert(own + Seq::<(Name, V)>::empty() =~= own);
            }
        }
        variables
    }

    /// All represent-as declarations visible from this scope: its own first, then each
    /// ancestor's in turn up to the global scope.
    pub fn get_represent_as_declarations<'scopes>(&'scopes self, scopes: &'scopes [Self]) -> (res: Vec<(&'scopes Name, &'scopes R)>)
        requires
            scopes_wf(scopes@),
            self.parent_in(scopes@),
        ensures
            decl_refs_match(res@, scope_visible_represents(*self, scopes@)),
        decreases parent_rank(*self),
    {
        let ghost own = self.spec_represents();
        let mut declarations: Vec<(&Name, &R)> = Vec::new();
        let mut j: usize = 0;
        while j < self.represent_as_declarations.len()
            invariant
                j <= own.len(),
                own == self.spec_represents(),
                decl_refs_match(declarations@, own.take(j as int)),
            decreases own.len() - j,
        {
            let entry = &self.represent_as_declarations[j];
            declarations.push((&entry.0, &entry.1));
            proof {
                assert(own.take(j + 1) =~= own.take(j as int).push(own[j as int]));
            }
            j = j + 1;
        }
        proof {
            assert(own.take(j as int) =~= own);
        }
        if let Some(parent) = self.parent {
            let scope = &scopes[parent];
            proof {
                lemma_scope_visible(scopes@, parent as int);
                assert(scope.spec_index() == parent);
                assert(parent == 0 || (scope.spec_parent() matches Some(q) && q < parent));
            }
            let inherited = scope.get_represent_as_declarations(scopes);
            let ghost before = declarations@;
            let mut k: usize = 0;
            while k < inherited.len()
                invariant
                    k <= inherited@.len(),
                    declarations@ == before + inherited@.take(k as int),
                decreases inherited@.len() - k,
            {
                declarations.push(inherited[k]);
                proof {
                    assert(inherited@.take(k + 1) =~= inherited@.take(k as int).push(inherited@[k as int]));
                    assert(before + inherited@.take(k + 1) =~= (before + inherited@.take(k as int)).push(inherited@[k as int]));
                }
                k = k + 1;
            }
            proof {
                assert(inherited@.take(k as int) =~= inherited@);
                let full = scope_visible_represents(*self, scopes@);
                let next = visible_represents(scopes@, parent as int);
                assert(full == own + next);
                assert forall|x: int| 0 <= x < declarations@.len() implies *(#[trigger] declarations@[x]).0 == full[x].0
                    && *declarations@[x].1 == full[x].1 by {
                    if x < own.len() {
                        assert(declarations@[x] == before[x]);
                    } else {
                        assert(declarations@[x] == inherited@[x - own.len()]);
                    }
                }
            }
        } else {
            proof {
                assert(own + Seq::<(Name, R)>::empty() =~= own);
            }
        }
        declarations
    }
}

/// The pairs of references hold exactly the given names and values, in order.
pub open spec fn refs_match<V>(refs: Seq<(&Name, &V)>, vals: Seq<(Name, V)>) -> bool {
    &&& refs.len() == vals.len()
    &&& forall|k: int| 0 <= k < refs.len() ==> *(#[trigger] refs[k]).0 == vals[k].0 && *refs[k].1 == vals[k].1
}

/// The pairs of references hold exactly the given named declarations, in order.
pub open spec fn decl_refs_match<R>(refs: Seq<(&Name, &R)>, vals: Seq<(Name, R)>) -> bool {
    &&& refs.len() == vals.len()
    &&& forall|k: int| 0 <= k < refs.len() ==> *(#[trigger] refs[k]).0 == vals[k].0 && *refs[k].1 == vals[k].1
}

impl<V, R> ScopeData<V, R> {
    /// Declares a new variable in the scope with the given id. Cabin does not allow shadowing:
    /// when a variable with the same name is already visible from that scope, nothing
    /// changes and an error is returned. Otherwise the variable, not yet evaluated at
    /// compile-time, is stored in the scope with the given id.
    pub fn declare_new_variable_from_id(&mut self, name: Name, value: V, id: usize) -> (res: Result<(), ScopeError>)
        requires
            old(self).wf(),
            id < old(self).spec_scopes().len(),
        ensures
            declared_variable(*old(self), *final(self), name, value, id, res),
    {
        let ghost start = id as int;
        let mut current: Option<usize> = Some(id);
        loop
            invariant
                self.wf(),
                *self == *old(self),
                start == id,
                current matches Some(c) ==> c < self.spec_scopes().len(),
                variable_owner(self.spec_scopes(), start, name@) == match current {
                    Some(c) => variable_owner(self.spec_scopes(), c as int, name@),
                    None => -1,
                },
            ensures
                self.wf(),
                *self == *old(self),
                start == id,
                variable_owner(self.spec_scopes(), start, name@) == -1,
            decreases match current {
                Some(c) => c + 1,
                None => 0,
            },
        {
            match current {
                Some(current_index) => {
                    let scope = &self.scopes[current_index];
                    if scope.get_variable_direct(&name).is_some() {
                        return Err(ScopeError::VariableAlreadyExists);
                    }
                    proof {
                        if current_index > 0 {
                            assert(scope.spec_parent() matches Some(p) && p < current_index);
                        }
                    }
                    current = scope.parent;
                },
                None => {
                    break;
                },
            }
        }
        proof {
            assert(variable_owner(self.spec_scopes(), start, name@) == -1);
            assert(lookup_variable(old(self).spec_scopes(), id as int, name@) is None);
        }
        let ghost before = self.spec_scopes();
        let mut scope = self.scopes.remove(id);
        insert_into(&mut scope.variables, name, VariableValue::new(value));
        self.scopes.insert(id, scope);
        proof {
            assert(self.spec_scopes() =~= before.update(id as int, scope));
            lemma_wf_replace(before, self.spec_scopes(), id as int);
        }
        Ok(())
    }

    /// Declares a new variable in the current scope, as `declare_new_variable_from_id` does.
    pub fn declare_new_variable(&mut self, name: Name, value: V) -> (res: Result<(), ScopeError>)
        requires
            old(self).wf(),
        ensures
            declared_variable(*old(self), *final(self), name, value, old(self).current_id(), res),
    {
        let id = self.current_scope;
        self.declare_new_variable_from_id(name, value, id)
    }

    /// Gives the variable with the given name that is visible from the scope with the given id a
    /// new value, not yet evaluated at compile-time, in the nearest scope that declares it. Fails,
    /// changing nothing, when no such variable is visible.
    pub fn reassign_variable_from_id(&mut self, name: &Name, value: V, id: usize) -> (res: Result<(), ScopeError>)
        requires
            old(self).wf(),
            id < old(self).spec_scopes().len(),
        ensures
            reassigned_variable(*old(self), *final(self), name@, value, id, res),
    {
        let ghost start = id as int;
        let mut carried = value;
        let mut current: Option<usize> = Some(id);
        loop
            invariant
                self.wf(),
                self.current_id() == old(self).current_id(),
                self.spec_scopes() == old(self).spec_scopes(),
                start == id,
                carried == value,
                current matches Some(c) ==> c < self.spec_scopes().len(),
                variable_owner(self.spec_scopes(), start, name@) == match current {
                    Some(c) => variable_owner(self.spec_scopes(), c as int, name@),
                    None => -1,
                },
            decreases match current {
                Some(c) => c + 1,
                None => 0,
            },
        {
            match current {
                Some(current_index) => {
                    let ghost before = self.spec_scopes();
                    let mut scope = self.scopes.remove(current_index);
                    let ghost prior = scope;
                    let result = scope.reassign_variable_direct(name, carried);
                    let parent = scope.parent;
                    self.scopes.insert(current_index, scope);
                    proof {
                        assert(self.spec_scopes() =~= before.update(current_index as int, scope));
                        lemma_wf_replace(before, self.spec_scopes(), current_index as int);
                    }
                    match result {
                        Ok(()) => {
                            proof {
                                assert(variable_owner(before, current_index as int, name@) == current_index);
                                let o = variable_owner(old(self).spec_scopes(), id as int, name@);
                                assert forall|k: int| 0 <= k < old(self).spec_scopes().len() && k != o implies #[trigger] self.spec_scopes()[k]
                                    == old(self).spec_scopes()[k] by {
                                    assert(self.spec_scopes()[k] == before[k]);
                                }
                            }
                            return Ok(());
                        },
                        Err(returned) => {
                            proof {
                                assert(self.spec_scopes() =~= before);
                                if current_index > 0 {
                                    assert(before[current_index as int].spec_parent() matches Some(p) && p < current_index);
                                }
                            }
                            carried = returned;
                            current = parent;
                        },
                    }
                },
                None => {
                    return Err(ScopeError::VariableNotFound);
                },
            }
        }
    }

    /// Gives the represent-as declaration with the given name that is visible from the scope with
    /// the given id a new value, in the nearest scope that holds it. Fails, changing nothing, when
    /// no such declaration is visible.
    pub fn reassign_represent_from_id(&mut self, name: &Name, value: R, id: usize) -> (res: Result<(), ScopeError>)
        requires
            old(self).wf(),
            id < old(self).spec_scopes().len(),
        ensures
            final(self).wf(),
            final(self).current_id() == old(self).current_id(),
            represent_owner(old(self).spec_scopes(), id as int, name@) >= 0 ==> {
                let o = represent_owner(old(self).spec_scopes(), id as int, name@);
                &&& res is Ok
                &&& final(self).spec_scopes().len() == old(self).spec_scopes().len()
                &&& scope_with_represents(
                    old(self).spec_scopes()[o],
                    final(self).spec_scopes()[o],
                    replace_entry(old(self).spec_scopes()[o].spec_represents(), name@, value),
                )
                &&& forall|k: int|
                    0 <= k < old(self).spec_scopes().len() && k != o ==> #[trigger] final(self).spec_scopes()[k]
                        == old(self).spec_scopes()[k]
            },
            represent_owner(old(self).spec_scopes(), id as int, name@) < 0 ==> res == Err::<(), ScopeError>(
                ScopeError::VariableNotFound,
            ) && final(self).spec_scopes() == old(self).spec_scopes(),
    {
        let ghost start = id as int;
        let mut carried = value;
        let mut current: Option<usize> = Some(id);
        loop
            invariant
                self.wf(),
                self.current_id() == old(self).current_id(),
                self.spec_scopes() == old(self).spec_scopes(),
                start == id,
                carried == value,
                current matches Some(c) ==> c < self.spec_scopes().len(),
                represent_owner(self.spec_scopes(), start, name@) == match current {
                    Some(c) => represent_owner(self.spec_scopes(), c as int, name@),
                    None => -1,
                },
            decreases match current {
                Some(c) => c + 1,
                None => 0,
            },
        {
            match current {
                Some(current_index) => {
                    let ghost before = self.spec_scopes();
                    let mut scope = self.scopes.remove(current_index);
                    let ghost prior = scope;
                    let result = scope.reassign_represent_direct(name, carried);
                    let parent = scope.parent;
                    self.scopes.insert(current_index, scope);
                    proof {
                        assert(self.spec_scopes() =~= before.update(current_index as int, scope));
                        lemma_wf_replace(before, self.spec_scopes(), current_index as int);
                    }
                    match result {
                        Ok(()) => {
                            proof {
                                assert(prior == before[current_index as int]);
                            }
                            return Ok(());
                        },
                        Err(returned) => {
                            proof {
                                assert(self.spec_scopes() =~= before);
                                if current_index > 0 {
                                    assert(before[current_index as int].spec_parent() matches Some(p) && p < current_index);
                                }
                            }
                            carried = returned;
                            current = parent;
                        },
                    }
                },
                None => {
                    return Err(ScopeError::VariableNotFound);
                },
            }
        }
    }

    /// Marks the variable with the given name that is visible from the scope with the given id
    /// as evaluated at compile-time, in the nearest scope that declares it. Fails, changing
    /// nothing, when no such variable is visible.
    pub fn set_evaluated_from_id(&mut self, name: &Name, id: usize) -> (res: Result<(), ScopeError>)
        requires
            old(self).wf(),
            id < old(self).spec_scopes().len(),
        ensures
            final(self).wf(),
            final(self).current_id() == old(self).current_id(),
            variable_owner(old(self).spec_scopes(), id as int, name@) >= 0 ==> {
                let o = variable_owner(old(self).spec_scopes(), id as int, name@);
                let vars = old(self).spec_scopes()[o].spec_variables();
                &&& res is Ok
                &&& final(self).spec_scopes().len() == old(self).spec_scopes().len()
                &&& scope_with_variables(
                    old(self).spec_scopes()[o],
                    final(self).spec_scopes()[o],
                    replace_entry(
                        vars,
                        name@,
                        VariableValue { value: entry_lookup(vars, name@)->0.value, has_been_compile_time_evaluated: true },
                    ),
                )
                &&& forall|k: int|
                    0 <= k < old(self).spec_scopes().len() && k != o ==> #[trigger] final(self).spec_scopes()[k]
                        == old(self).spec_scopes()[k]
            },
            variable_owner(old(self).spec_scopes(), id as int, name@) < 0 ==> res == Err::<(), ScopeError>(
                ScopeError::VariableNotFound,
            ) && final(self).spec_scopes() == old(self).spec_scopes(),
    {
        let ghost start = id as int;
        let mut current: Option<usize> = Some(id);
        loop
            invariant
                self.wf(),
                self.current_id() == old(self).current_id(),
                self.spec_scopes() == old(self).spec_scopes(),
                start == id,
                current matches Some(c) ==> c < self.spec_scopes().len(),
                variable_owner(self.spec_scopes(), start, name@) == match current {
                    Some(c) => variable_owner(self.spec_scopes(), c as int, name@),
                    None => -1,
                },
            decreases match current {
                Some(c) => c + 1,
                None => 0,
            },
        {
            match current {
                Some(current_index) => {
                    let ghost before = self.spec_scopes();
                    let mut scope = self.scopes.remove(current_index);
                    let result = scope.set_evaluated_direct(name);
                    let parent = scope.parent;
                    self.scopes.insert(current_index, scope);
                    proof {
                        assert(self.spec_scopes() =~= before.update(current_index as int, scope));
                        lemma_wf_replace(before, self.spec_scopes(), current_index as int);
                    }
                    match result {
                        Ok(()) => {
                            return Ok(());
                        },
                        Err(_) => {
                            proof {
                                assert(self.spec_scopes() =~= before);
                                if current_index > 0 {
                                    assert(before[current_index as int].spec_parent() matches Some(p) && p < current_index);
                                }
                            }
                            current = parent;
                        },
                    }
                },
                None => {
                    return Err(ScopeError::VariableNotFound);
                },
            }
        }
    }

    /// Reassigns a variable visible from the current scope, as `reassign_variable_from_id` does.
    pub fn reassign_variable(&mut self, name: &Name, value: V) -> (res: Result<(), ScopeError>)
        requires
            old(self).wf(),
        ensures
            reassigned_variable(*old(self), *final(self), name@, value, old(self).current_id(), res),
    {
        let id = self.current_scope;
        self.reassign_variable_from_id(name, value, id)
    }

    /// Marks a variable visible from the current scope as evaluated, as `set_evaluated_from_id` does.
    pub fn set_evaluated(&mut self, name: &Name) -> (res: Result<(), ScopeError>)
        requires
            old(self).wf(),
        ensures
            final(self).wf(),
            final(self).current_id() == old(self).current_id(),
            variable_owner(old(self).spec_scopes(), old(self).current_id() as int, name@) >= 0 ==> {
                let o = variable_owner(old(self).spec_scopes(), old(self).current_id() as int, name@);
                let vars = old(self).spec_scopes()[o].spec_variables();
                &&& res is Ok
                &&& final(self).spec_scopes().len() == old(self).spec_scopes().len()
                &&& scope_with_variables(
                    old(self).spec_scopes()[o],
                    final(self).spec_scopes()[o],
                    replace_entry(
                        vars,
                        name@,
                        VariableValue { value: entry_lookup(vars, name@)->0.value, has_been_compile_time_evaluated: true },
                    ),
                )
                &&& forall|k: int|
                    0 <= k < old(self).spec_scopes().len() && k != o ==> #[trigger] final(self).spec_scopes()[k]
                        == old(self).spec_scopes()[k]
            },
            variable_owner(old(self).spec_scopes(), old(self).current_id() as int, name@) < 0 ==> res == Err::<
                (),
                ScopeError,
            >(ScopeError::VariableNotFound) && final(self).spec_scopes() == old(self).spec_scopes(),
    {
        let id = self.current_scope;
        self.set_evaluated_from_id(name, id)
    }

    /// Stores a represent-as declaration under the given name in the current scope, replacing
    /// the value of one with the same name that the scope already holds.
    pub fn add_represent_as_declaration(&mut self, name: Name, declaration: R)
        requires
            old(self).wf(),
        ensures
            final(self).wf(),
            final(self).current_id() == old(self).current_id(),
            final(self).spec_scopes().len() == old(self).spec_scopes().len(),
            scope_with_represents(
                old(self).spec_scopes()[old(self).current_id() as int],
                final(self).spec_scopes()[old(self).current_id() as int],
                insert_entry(old(self).spec_scopes()[old(self).current_id() as int].spec_represents(), name, declaration),
            ),
            forall|k: int|
                0 <= k < old(self).spec_scopes().len() && k != old(self).current_id() ==> #[trigger] final(self).spec_scopes()[k]
                    == old(self).spec_scopes()[k],
    {
        let id = self.current_scope;
        let ghost before = self.spec_scopes();
        let mut scope = self.scopes.remove(id);
        insert_into(&mut scope.represent_as_declarations, name, declaration);
        self.scopes.insert(id, scope);
        proof {
            assert(self.spec_scopes() =~= before.update(id as int, scope));
            lemma_wf_replace(before, self.spec_scopes(), id as int);
        }
    }

    /// The value of the global variable with the given name: the same as
    /// `get_variable_from_id(name, 0)`, because 0 is always the ID of the global scope.
    pub fn get_global_variable(&self, name: &Name) -> (res: Option<&V>)
        requires
            self.wf(),
        ensures
            match lookup_variable(self.spec_scopes(), 0, name@) {
                Some(vv) => res == Some(&vv.value),
                None => res is None,
            },
    {
        self.get_variable_from_id(name, 0)
    }

    /// The value of the global variable with the given name, which must exist.
    pub fn expect_global_variable(&self, name: &Name) -> (res: &V)
        requires
            self.wf(),
            lookup_variable(self.spec_scopes(), 0, name@) is Some,
        ensures
            *res == lookup_variable(self.spec_scopes(), 0, name@)->0.value,
    {
        self.get_global_variable(name).unwrap()
    }

    /// The type of the nearest scope, walking from the current scope up through its ancestors,
    /// with the given label; an error when no enclosing scope has that label.
    pub fn scope_type_of(&self, label: &Name) -> (res: Result<&ScopeType, ScopeError>)
        requires
            self.wf(),
        ensures
            label_owner(self.spec_scopes(), self.current_id() as int, label@) >= 0 ==> res == Ok::<&ScopeType, ScopeError>(
                &self.spec_scopes()[label_owner(self.spec_scopes(), self.current_id() as int, label@)].spec_scope_type(),
            ),
            label_owner(self.spec_scopes(), self.current_id() as int, label@) < 0 ==> res == Err::<&ScopeType, ScopeError>(
                ScopeError::LabelNotFound,
            ),
    {
        let ghost start = self.current_id() as int;
        let mut current: usize = self.current_scope;
        loop
            invariant
                self.wf(),
                start == self.current_id(),
                current < self.spec_scopes().len(),
                label_owner(self.spec_scopes(), start, label@) == label_owner(self.spec_scopes(), current as int, label@),
            decreases current,
        {
            let scope = &self.scopes[current];
            let matches_label = match &scope.label {
                Some(scope_label) => scope_label.same_as(label),
                None => false,
            };
            if matches_label {
                return Ok(&scope.scope_type);
            }
            match scope.parent {
                Some(parent) => {
                    proof {
                        if current > 0 {
                            assert(scope.spec_parent() matches Some(p) && p < current);
                        }
                    }
                    current = parent;
                },
                None => {
                    return Err(ScopeError::LabelNotFound);
                },
            }
        }
    }
}


/// The position list `order` with index `i` inserted after every index whose key is at most
/// the key of `i`: one step of a stable insertion sort.
pub open spec fn insert_by_key(order: Seq<int>, i: int, keys: Seq<nat>) -> Seq<int>
    decreases order.len(),
{
    if order.len() == 0 {
        seq![i]
    } else if keys[order[0]] > keys[i] {
        seq![i] + order
    } else {
        seq![order[0]] + insert_by_key(order.drop_first(), i, keys)
    }
}

/// The positions `0..n` ordered by their keys, positions with equal keys keeping their order:
/// the order in which a stable sort by key leaves the first `n` elements.
pub open spec fn stable_order(keys: Seq<nat>, n: nat) -> Seq<int>
    decreases n,
{
    if n == 0 {
        Seq::empty()
    } else {
        insert_by_key(stable_order(keys, (n - 1) as nat), n - 1, keys)
    }
}

/// Inserting at the first position whose key is greater is the insertion step of `insert_by_key`.
proof fn lemma_insert_by_key(order: Seq<int>, i: int, keys: Seq<nat>, p: int)
    requires
        0 <= p <= order.len(),
        forall|q: int| 0 <= q < p ==> keys[#[trigger] order[q]] <= keys[i],
        p < order.len() ==> keys[order[p]] > keys[i],
    ensures
        order.insert(p, i) == insert_by_key(order, i, keys),
    decreases order.len(),
{
    if order.len() == 0 {
        assert(order.insert(p, i) =~= seq![i]);
    } else if p == 0 {
        assert(order.insert(p, i) =~= seq![i] + order);
    } else {
        let rest = order.drop_first();
        assert forall|q: int| 0 <= q < p - 1 implies keys[#[trigger] rest[q]] <= keys[i] by {
            assert(rest[q] == order[q + 1]);
        }
        assert(keys[order[0]] <= keys[i]);
        lemma_insert_by_key(rest, i, keys, p - 1);
        assert(order.insert(p, i) =~= seq![order[0]] + rest.insert(p - 1, i));
    }
}

/// Every position of a stable order lies below `n`, and there are `n` of them.
proof fn lemma_stable_order_bounds(keys: Seq<nat>, n: nat)
    ensures
        stable_order(keys, n).len() == n,
        forall|q: int| 0 <= q < n ==> 0 <= #[trigger] stable_order(keys, n)[q] < n,
    decreases n,
{
    if n > 0 {
        lemma_stable_order_bounds(keys, (n - 1) as nat);
        lemma_insert_by_key_bounds(stable_order(keys, (n - 1) as nat), n - 1, keys, n as int);
    }
}

proof fn lemma_insert_by_key_bounds(order: Seq<int>, i: int, keys: Seq<nat>, n: int)
    requires
        0 <= i < n,
        forall|q: int| 0 <= q < order.len() ==> 0 <= #[trigger] order[q] < n,
    ensures
        insert_by_key(order, i, keys).len() == order.len() + 1,
        forall|q: int| 0 <= q < order.len() + 1 ==> 0 <= #[trigger] insert_by_key(order, i, keys)[q] < n,
    decreases order.len(),
{
    if order.len() > 0 && keys[order[0]] <= keys[i] {
        let rest = order.drop_first();
        assert forall|q: int| 0 <= q < rest.len() implies 0 <= #[trigger] rest[q] < n by {
            assert(rest[q] == order[q + 1]);
        }
        lemma_insert_by_key_bounds(rest, i, keys, n);
        let r = insert_by_key(order, i, keys);
        assert forall|q: int| 0 <= q < order.len() + 1 implies 0 <= #[trigger] r[q] < n by {
            if q > 0 {
                assert(r[q] == insert_by_key(rest, i, keys)[q - 1]);
            }
        }
    } else if order.len() > 0 {
        let r = insert_by_key(order, i, keys);
        assert forall|q: int| 0 <= q < order.len() + 1 implies 0 <= #[trigger] r[q] < n by {
            if q > 0 {
                assert(r[q] == order[q - 1]);
            }
        }
    }
}

/// The distance from the text of each visible variable's name to the given text.
pub open spec fn distances_to<V>(vars: Seq<(Name, V)>, target: Seq<char>) -> Seq<nat> {
    vars.map_values(|e: (Name, V)| text_distance(e.0@, target))
}

impl<V, R> ScopeData<V, R> {
    /// All variables visible from the current scope, as name and value: the current scope's own
    /// first, then each ancestor's in turn up to the global scope.
    pub fn get_variables(&self) -> (res: Vec<(&Name, &V)>)
        requires
            self.wf(),
        ensures
            refs_match(res@, visible_variables(self.spec_scopes(), self.current_id() as int)),
    {
        proof {
            lemma_scope_visible(self.spec_scopes(), self.current_id() as int);
        }
        self.current().get_variables(&self.scopes)
    }

    /// All represent-as declarations visible from the current scope: the current scope's own
    /// first, then each ancestor's in turn up to the global scope.
    pub fn get_represent_as_declarations(&self) -> (res: Vec<(&Name, &R)>)
        requires
            self.wf(),
        ensures
            decl_refs_match(res@, visible_represents(self.spec_scopes(), self.current_id() as int)),
    {
        proof {
            lemma_scope_visible(self.spec_scopes(), self.current_id() as int);
        }
        self.current().get_represent_as_declarations(&self.scopes)
    }

    /// The variables visible from the current scope whose names are closest to the given name,
    /// used to suggest a variable when a name can't be found: all visible variables (as
    /// `get_variables` lists them), stably sorted by the Levenshtein distance from their name to
    /// the given name, and cut to at most `max` of them.
    pub fn get_closest_variables(&self, name: &Name, max: usize) -> (res: Vec<(&Name, &V)>)
        requires
            self.wf(),
        ensures
            ({
                let vars = visible_variables(self.spec_scopes(), self.current_id() as int);
                let order = stable_order(distances_to(vars, name@), vars.len());
                &&& res@.len() == if vars.len() <= max { vars.len() } else { max as nat }
                &&& forall|k: int|
                    0 <= k < res@.len() ==> *(#[trigger] res@[k]).0 == vars[order[k]].0 && *res@[k].1 == vars[order[k]].1
            }),
    {
        let all_variables = self.get_variables();
        let ghost vars = visible_variables(self.spec_scopes(), self.current_id() as int);
        let ghost keys = distances_to(vars, name@);
        let n = all_variables.len();
        let target = name.unmangled_name();

        let mut distances: Vec<usize> = Vec::new();
        let mut i: usize = 0;
        while i < n
            invariant
                i <= n,
                n == all_variables@.len(),
                refs_match(all_variables@, vars),
                keys == distances_to(vars, name@),
                target@ == name@,
                distances@.len() == i,
                forall|q: int| 0 <= q < i ==> distances@[q] as nat == keys[q],
            decreases n - i,
        {
            let (variable_name, _) = all_variables[i];
            distances.push(variable_name.unmangled_name().distance_to(target));
            i = i + 1;
        }

        let mut order: Vec<usize> = Vec::new();
        let mut i: usize = 0;
        while i < n
            invariant
                i <= n,
                n == vars.len(),
                distances@.len() == n,
                keys.len() == n,
                forall|q: int| 0 <= q < n ==> distances@[q] as nat == keys[q],
                order@.len() == i,
                order@.map_values(|x: usize| x as int) == stable_order(keys, i as nat),
                forall|q: int| 0 <= q < i ==> #[trigger] order@[q] < i,
            decreases n - i,
        {
            proof {
                lemma_stable_order_bounds(keys, i as nat);
            }
            let mut p: usize = 0;
            while p < order.len() && distances[order[p]] <= distances[i]
                invariant
                    p <= order@.len(),
                    i < n,
                    order@.len() == i,
                    distances@.len() == n,
                    forall|q: int| 0 <= q < i ==> #[trigger] order@[q] < i,
                    forall|q: int| 0 <= q < p ==> distances@[#[trigger] order@[q] as int] <= distances@[i as int],
                decreases order@.len() - p,
            {
                p = p + 1;
            }
            let ghost before = order@;
            order.insert(p, i);
            proof {
                let ob = before.map_values(|x: usize| x as int);
                assert forall|q: int| 0 <= q < p implies keys[#[trigger] ob[q]] <= keys[i as int] by {
                    assert(distances@[before[q] as int] <= distances@[i as int]);
                }
                if p < before.len() {
                    assert(distances@[before[p as int] as int] > distances@[i as int]);
                }
                lemma_insert_by_key(ob, i as int, keys, p as int);
                assert(order@.map_values(|x: usize| x as int) =~= ob.insert(p as int, i as int));
                assert forall|q: int| 0 <= q < i + 1 implies #[trigger] order@[q] < i + 1 by {
                    if q < p {
                        assert(order@[q] == before[q]);
                    } else if q > p {
                        assert(order@[q] == before[q - 1]);
                    }
                }
            }
            i = i + 1;
        }

        let count = if n <= max { n } else { max };
        let mut res: Vec<(&Name, &V)> = Vec::new();
        let mut k: usize = 0;
        while k < count
            invariant
                k <= count,
                count <= n,
                n == vars.len(),
                count == if vars.len() <= max { vars.len() } else { max as nat },
                refs_match(all_variables@, vars),
                order@.len() == n,
                order@.map_values(|x: usize| x as int) == stable_order(keys, n as nat),
                forall|q: int| 0 <= q < n ==> #[trigger] order@[q] < n,
                res@.len() == k,
                forall|q: int|
                    0 <= q < k ==> *(#[trigger] res@[q]).0 == vars[stable_order(keys, n as nat)[q]].0 && *res@[q].1
                        == vars[stable_order(keys, n as nat)[q]].1,
            decreases count - k,
        {
            let position = order[k];
            proof {
                assert(stable_order(keys, n as nat)[k as int] == order@[k as int] as int);
            }
            res.push(all_variables[position]);
            k = k + 1;
        }
        res
    }
}


/// Lookups from scope `id` see the same owner in two arenas that agree, on every scope up to
/// the end of the first, on parents and on where each scope holds the name.
proof fn lemma_variable_owner_frame<V, R>(a: Seq<Scope<V, R>>, b: Seq<Scope<V, R>>, id: int, key: Seq<char>)
    requires
        0 <= id < a.len() <= b.len(),
        forall|k: int| 0 <= k < a.len() ==> (#[trigger] b[k]).spec_parent() == a[k].spec_parent(),
        forall|k: int| 0 <= k < a.len() ==> first_index((#[trigger] b[k]).spec_variables(), key) == first_index(a[k].spec_variables(), key),
    ensures
        variable_owner(b, id, key) == variable_owner(a, id, key),
    decreases id,
{
    assert(b[id].spec_parent() == a[id].spec_parent());
    assert(first_index(b[id].spec_variables(), key) == first_index(a[id].spec_variables(), key));
    if let Some(p) = a[id].spec_parent() {
        if p < id {
            lemma_variable_owner_frame(a, b, p as int, key);
        }
    }
}

/// Replacing the value of an entry keeps every name's first position.
proof fn lemma_replace_entry_names<T>(entries: Seq<(Name, T)>, key: Seq<char>, t: T, other: Seq<char>)
    requires
        first_index(entries, key) >= 0,
    ensures
        first_index(replace_entry(entries, key, t), other) == first_index(entries, other),
        replace_entry(entries, key, t).len() == entries.len(),
{
    lemma_first_index(entries, key);
    let r = replace_entry(entries, key, t);
    assert forall|x: int| 0 <= x < entries.len() implies #[trigger] entries[x].0@ == r[x].0@ by {}
    lemma_first_index_same_names(entries, r, other);
}

/// Exiting a scope right after entering one makes the scope that was current before the enter
/// current again, and the exit succeeds.
pub proof fn law_exit_undoes_enter<V, R>(
    before: ScopeData<V, R>,
    entered: ScopeData<V, R>,
    exited: ScopeData<V, R>,
    scope_type: ScopeType,
    label: Option<Name>,
    res: Result<(), ScopeError>,
)
    requires
        before.wf(),
        entered_scope(before, entered, scope_type, label),
        exited_scope(entered, exited, res),
    ensures
        res is Ok,
        exited.current_id() == before.current_id(),
        exited.spec_scopes() == entered.spec_scopes(),
{
}

/// A scope sees the variables of the scope it was entered from: right after a new scope is
/// entered, every name is bound to the same variable as it was before.
pub proof fn law_entered_scope_sees_enclosing_variables<V, R>(
    before: ScopeData<V, R>,
    entered: ScopeData<V, R>,
    scope_type: ScopeType,
    label: Option<Name>,
    key: Seq<char>,
)
    requires
        before.wf(),
        entered_scope(before, entered, scope_type, label),
    ensures
        lookup_variable(entered.spec_scopes(), entered.current_id() as int, key) == lookup_variable(
            before.spec_scopes(),
            before.current_id() as int,
            key,
        ),
{
    let a = before.spec_scopes();
    let b = entered.spec_scopes();
    let c = before.current_id() as int;
    assert forall|k: int| 0 <= k < a.len() implies (#[trigger] b[k]).spec_parent() == a[k].spec_parent() && b[k].spec_variables() == a[k].spec_variables() by {
        if k != c {
            assert(b[k] == a[k]);
        }
    }
    lemma_variable_owner_frame(a, b, c, key);
    let n = a.len() as int;
    assert(b[n] == b.last());
    assert(first_index(b[n].spec_variables(), key) == -1);
    lemma_variable_owner_is_holder(a, c, key);
    let o = variable_owner(a, c, key);
    if o >= 0 {
        assert(b[o].spec_variables() == a[o].spec_variables());
    }
}

/// A variable declared in the current scope is then visible from it, holding the declared
/// value, not yet evaluated at compile-time.
pub proof fn law_declared_variable_is_visible<V, R>(
    before: ScopeData<V, R>,
    after: ScopeData<V, R>,
    name: Name,
    value: V,
    res: Result<(), ScopeError>,
)
    requires
        before.wf(),
        declared_variable(before, after, name, value, before.current_id(), res),
        res is Ok,
    ensures
        lookup_variable(after.spec_scopes(), after.current_id() as int, name@) == Some(
            VariableValue { value, has_been_compile_time_evaluated: false },
        ),
{
    let a = before.spec_scopes();
    let c = before.current_id() as int;
    let vars = a[c].spec_variables();
    assert(lookup_variable(a, c, name@) is None);
    assert(first_index(vars, name@) < 0);
    lemma_first_index(vars, name@);
    lemma_first_index_push(vars, (name, VariableValue { value, has_been_compile_time_evaluated: false }), name@);
}

/// Cabin doesn't allow shadowing: once a variable is declared, declaring the same name again
/// from the same scope fails and changes nothing.
pub proof fn law_redeclaration_fails<V, R>(
    before: ScopeData<V, R>,
    middle: ScopeData<V, R>,
    after: ScopeData<V, R>,
    name: Name,
    value: V,
    again: Name,
    other: V,
    first: Result<(), ScopeError>,
    second: Result<(), ScopeError>,
)
    requires
        before.wf(),
        declared_variable(before, middle, name, value, before.current_id(), first),
        first is Ok,
        again@ == name@,
        declared_variable(middle, after, again, other, middle.current_id(), second),
    ensures
        second == Err::<(), ScopeError>(ScopeError::VariableAlreadyExists),
        after.spec_scopes() == middle.spec_scopes(),
{
    law_declared_variable_is_visible(before, middle, name, value, first);
}

/// After a variable is reassigned from the current scope, it is visible from there with the
/// new value, not yet evaluated at compile-time.
pub proof fn law_reassigned_variable_holds_new_value<V, R>(
    before: ScopeData<V, R>,
    after: ScopeData<V, R>,
    key: Seq<char>,
    value: V,
    res: Result<(), ScopeError>,
)
    requires
        before.wf(),
        reassigned_variable(before, after, key, value, before.current_id(), res),
        res is Ok,
    ensures
        lookup_variable(after.spec_scopes(), after.current_id() as int, key) == Some(
            VariableValue { value, has_been_compile_time_evaluated: false },
        ),
{
    let a = before.spec_scopes();
    let b = after.spec_scopes();
    let c = before.current_id() as int;
    lemma_variable_owner_is_holder(a, c, key);
    let o = variable_owner(a, c, key);
    assert(o >= 0);
    let vv = VariableValue { value, has_been_compile_time_evaluated: false };
    lemma_replace_entry_names(a[o].spec_variables(), key, vv, key);
    assert forall|k: int| 0 <= k < a.len() implies (#[trigger] b[k]).spec_parent() == a[k].spec_parent() && first_index(
        b[k].spec_variables(),
        key,
    ) == first_index(a[k].spec_variables(), key) by {
        if k != o {
            assert(b[k] == a[k]);
        }
    }
    lemma_variable_owner_frame(a, b, c, key);
    lemma_first_index(a[o].spec_variables(), key);
}

/// The owner found from a scope holds the name.
proof fn lemma_variable_owner_is_holder<V, R>(scopes: Seq<Scope<V, R>>, id: int, key: Seq<char>)
    ensures
        variable_owner(scopes, id, key) >= 0 ==> variable_owner(scopes, id, key) < scopes.len()
            && first_index(scopes[variable_owner(scopes, id, key)].spec_variables(), key) >= 0,
    decreases id,
{
    if 0 <= id < scopes.len() && first_index(scopes[id].spec_variables(), key) < 0 {
        if let Some(p) = scopes[id].spec_parent() {
            if p < id {
                lemma_variable_owner_is_holder(scopes, p as int, key);
            }
        }
    }
}

/// The distance between two texts does not depend on their order.
pub proof fn law_distance_is_symmetric(x: Seq<char>, y: Seq<char>)
    ensures
        text_distance(x, y) == text_distance(y, x),
{
    lemma_edit_distance_symmetric(letters(x), letters(y), x.len(), y.len());
}

/// Two strings are at distance zero exactly when they are equal.
pub proof fn law_distance_zero_means_equal(x: Seq<char>, y: Seq<char>)
    ensures
        text_distance(x, y) == 0 <==> x == y,
{
    let a = letters(x);
    let b = letters(y);
    if x == y {
        lemma_edit_distance_self(a, a.len());
    }
    if text_distance(x, y) == 0 {
        lemma_edit_distance_zero(a, b, a.len(), b.len());
        assert(a.take(a.len() as int) =~= a);
        assert(b.take(b.len() as int) =~= b);
        assert forall|k: int| 0 <= k < x.len() implies x[k] == y[k] by {
            assert(a[k] == Some(x[k]));
            assert(b[k] == Some(y[k]));
        }
        assert(x =~= y);
    }
}


/// The positions in `order` come in order of nondecreasing key.
pub open spec fn sorted_by_key(order: Seq<int>, keys: Seq<nat>) -> bool {
    forall|p: int, q: int| 0 <= p < q < order.len() ==> keys[#[trigger] order[p]] <= keys[#[trigger] order[q]]
}

proof fn lemma_insert_by_key_sorted(order: Seq<int>, i: int, keys: Seq<nat>, lb: nat)
    requires
        sorted_by_key(order, keys),
        forall|q: int| 0 <= q < order.len() ==> lb <= keys[#[trigger] order[q]],
        lb <= keys[i],
    ensures
        sorted_by_key(insert_by_key(order, i, keys), keys),
        forall|q: int|
            0 <= q < insert_by_key(order, i, keys).len() ==> lb <= keys[#[trigger] insert_by_key(order, i, keys)[q]],
        insert_by_key(order, i, keys).len() == order.len() + 1,
    decreases order.len(),
{
    let r = insert_by_key(order, i, keys);
    if order.len() == 0 {
    } else if keys[order[0]] > keys[i] {
        assert forall|p: int, q: int| 0 <= p < q < r.len() implies keys[#[trigger] r[p]] <= keys[#[trigger] r[q]] by {
            if p == 0 {
                assert(r[q] == order[q - 1]);
                if q - 1 > 0 {
                    assert(keys[order[0]] <= keys[order[q - 1]]);
                }
            } else {
                assert(r[p] == order[p - 1]);
                assert(r[q] == order[q - 1]);
            }
        }
        assert forall|q: int| 0 <= q < r.len() implies lb <= keys[#[trigger] r[q]] by {
            if q > 0 {
                assert(r[q] == order[q - 1]);
            }
        }
    } else {
        let rest = order.drop_first();
        let head = keys[order[0]];
        assert forall|p: int, q: int| 0 <= p < q < rest.len() implies keys[#[trigger] rest[p]] <= keys[#[trigger] rest[q]] by {
            assert(rest[p] == order[p + 1]);
            assert(rest[q] == order[q + 1]);
        }
        assert forall|q: int| 0 <= q < rest.len() implies head <= keys[#[trigger] rest[q]] by {
            assert(rest[q] == order[q + 1]);
        }
        lemma_insert_by_key_sorted(rest, i, keys, head);
        let tail = insert_by_key(rest, i, keys);
        assert(r == seq![order[0]] + tail);
        assert forall|p: int, q: int| 0 <= p < q < r.len() implies keys[#[trigger] r[p]] <= keys[#[trigger] r[q]] by {
            assert(r[q] == tail[q - 1]);
            if p > 0 {
                assert(r[p] == tail[p - 1]);
            }
        }
        assert forall|q: int| 0 <= q < r.len() implies lb <= keys[#[trigger] r[q]] by {
            if q > 0 {
                assert(r[q] == tail[q - 1]);
            }
        }
    }
}

/// The suggestions for a missing name come closest first: along a stable order, the keys
/// never decrease.
pub proof fn law_stable_order_is_sorted(keys: Seq<nat>, n: nat)
    ensures
        sorted_by_key(stable_order(keys, n), keys),
    decreases n,
{
    if n > 0 {
        law_stable_order_is_sorted(keys, (n - 1) as nat);
        lemma_insert_by_key_sorted(stable_order(keys, (n - 1) as nat), n - 1, keys, 0);
    }
}

} // verus!
