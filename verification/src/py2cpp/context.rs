use crate::py2cpp::text::str_eq;
use crate::py2cpp::types::{Code, Param, SpecFunction, SpecParam, Type, params_view};
use vstd::prelude::*;
use vstd::string::*;

verus! {

/// What the transpiler knows of the names in scope: for each name, the
/// parameters or variables that it has stood for, the last one current.
///
/// The entries form a log: a later entry for a name replaces the earlier ones.
#[derive(Debug)]
pub struct Context {
    entries: Vec<(String, Vec<Param>)>,
}

/// The model of a context: each name in scope and what it stands for.
pub type SpecContext = Map<Seq<char>, Seq<SpecParam>>;

pub open spec fn entry_view(e: (String, Vec<Param>)) -> (Seq<char>, Seq<SpecParam>) {
    (e.0@, params_view(e.1@))
}

/// The parameters that the last entry for `name` holds.
pub open spec fn find_entry(entries: Seq<(Seq<char>, Seq<SpecParam>)>, name: Seq<char>) -> Option<
    Seq<SpecParam>,
>
    decreases entries.len(),
{
    if entries.len() == 0 {
        None
    } else if entries.last().0 == name {
        Some(entries.last().1)
    } else {
        find_entry(entries.drop_last(), name)
    }
}

pub open spec fn entries_map(entries: Seq<(Seq<char>, Seq<SpecParam>)>) -> Map<Seq<char>, Seq<SpecParam>> {
    Map::new(|k: Seq<char>| find_entry(entries, k) is Some, |k: Seq<char>| find_entry(entries, k)->0)
}

/// The context that only knows the functions: each name stands for its
/// function, whose type is the return type; a later function of the same
/// name wins.
pub open spec fn functions_context(fs: Seq<SpecFunction>) -> Map<Seq<char>, Seq<SpecParam>>
    decreases fs.len(),
{
    if fs.len() == 0 {
        Map::empty()
    } else {
        functions_context(fs.drop_last()).insert(
            fs.last().name,
            seq![SpecParam { type_: fs.last().type_, name: fs.last().name }],
        )
    }
}

/// The message of `get_type` for a name that is not in scope.
pub open spec fn not_found_message(name: Seq<char>) -> Seq<char> {
    "La variable o función \""@ + name + "\" no encontrada"@
}

/// The type that `get_type` gives.
pub open spec fn type_in(ctx: Map<Seq<char>, Seq<SpecParam>>, name: Seq<char>) -> Result<Type, Seq<char>> {
    if ctx.contains_key(name) {
        Ok(ctx[name].last().type_)
    } else {
        Err(not_found_message(name))
    }
}

/// The result of `get_type` with its message as a `String`.
pub open spec fn result_type_view(r: Result<Type, String>) -> Result<Type, Seq<char>> {
    match r {
        Ok(t) => Ok(t),
        Err(e) => Err(e@),
    }
}

impl View for Context {
    type V = Map<Seq<char>, Seq<SpecParam>>;

    closed spec fn view(&self) -> Map<Seq<char>, Seq<SpecParam>> {
        entries_map(self.entries@.map_values(|e: (String, Vec<Param>)| entry_view(e)))
    }
}

impl Context {
    #[verifier::type_invariant]
    closed spec fn inv(self) -> bool {
        forall|i: int| 0 <= i < self.entries@.len() ==> (#[trigger] self.entries@[i]).1@.len() > 0
    }

    /// A context with no names in scope.
    pub fn new() -> (r: Context)
        ensures
            r@ == Map::<Seq<char>, Seq<SpecParam>>::empty(),
    {
        let r = Context { entries: Vec::new() };
        proof {
            assert(r@ =~= Map::<Seq<char>, Seq<SpecParam>>::empty());
        }
        r
    }

    /// Where the last entry for `name` stands.
    fn position(&self, name: &str) -> (r: Option<usize>)
        ensures
            match r {
                Some(i) => i < self.entries@.len() && self.entries@[i as int].0@ == name@
                    && self@.contains_key(name@) && self@[name@] == params_view(
                    self.entries@[i as int].1@,
                ),
                None => !self@.contains_key(name@),
            },
    {
        let ghost es = self.entries@.map_values(|e: (String, Vec<Param>)| entry_view(e));
        let mut i = self.entries.len();
        proof {
            assert(es.take(i as int) =~= es);
        }
        while i > 0
            invariant
                i <= self.entries@.len(),
                es == self.entries@.map_values(|e: (String, Vec<Param>)| entry_view(e)),
                find_entry(es, name@) == find_entry(es.take(i as int), name@),
            decreases i,
        {
            proof {
                assert(es.take(i as int).drop_last() =~= es.take(i - 1));
            }
            if str_eq(self.entries[i - 1].0.as_str(), name) {
                return Some(i - 1);
            }
            i = i - 1;
        }
        proof {
            assert(es.take(0) =~= Seq::<(Seq<char>, Seq<SpecParam>)>::empty());
        }
        None
    }

    /// The parameters that `name` stands for, if it is in scope.
    pub fn get(&self, name: &str) -> (r: Option<&Vec<Param>>)
        ensures
            match r {
                Some(ps) => self@.contains_key(name@) && self@[name@] == params_view(ps@) && ps@.len()
                    > 0,
                None => !self@.contains_key(name@),
            },
    {
        proof {
            use_type_invariant(self);
        }
        match self.position(name) {
            Some(i) => Some(&self.entries[i].1),
            None => None,
        }
    }

    /// Puts `name` in scope for `params`, replacing what it stood for.
    pub fn insert(&mut self, name: String, params: Vec<Param>)
        requires
            params@.len() > 0,
        ensures
            final(self)@ == old(self)@.insert(name@, params_view(params@)),
    {
        proof {
            use_type_invariant(&*self);
        }
        let ghost before = self.entries@.map_values(|e: (String, Vec<Param>)| entry_view(e));
        let ghost n = name@;
        let ghost ps = params_view(params@);
        let mut entries = Vec::new();
        std::mem::swap(&mut entries, &mut self.entries);
        entries.push((name, params));
        self.entries = entries;
        proof {
            let after = self.entries@.map_values(|e: (String, Vec<Param>)| entry_view(e));
            assert(after.drop_last() =~= before);
            assert(self@ =~= old(self)@.insert(n, ps));
        }
    }

    /// The context in which each function of `code` stands for its
    /// return type.
    pub fn get_fun_types(code: &mut Code) -> (r: Context)
        ensures
            *final(code) == *old(code),
            r@ == functions_context(old(code)@.functions),
    {
        let mut context = Context::new();
        let mut i: usize = 0;
        while i < code.functions.len()
            invariant
                i <= code.functions@.len(),
                context@ == functions_context(code@.functions.take(i as int)),
            decreases code.functions@.len() - i,
        {
            let param = Param {
                type_: code.functions[i].type_.copy(),
                name: code.functions[i].name.clone(),
            };
            let params = vec![param];
            proof {
                assert(code@.functions.take(i + 1).drop_last() =~= code@.functions.take(i as int));
                assert(params_view(params@) =~= seq![param@]);
            }
            context.insert(code.functions[i].name.clone(), params);
            i = i + 1;
        }
        proof {
            assert(code@.functions.take(code@.functions.len() as int) =~= code@.functions);
        }
        context
    }

    /// The type of the current meaning of `name`, or the message that it is
    /// not in scope.
    pub fn get_type(&mut self, name: &str) -> (r: Result<Type, String>)
        ensures
            *final(self) == *old(self),
            result_type_view(r) == type_in(old(self)@, name@),
    {
        match self.get(name) {
            Some(params) => Ok(params[params.len() - 1].type_.copy()),
            None => {
                let mut message = String::from_str("La variable o función \"");
                message.append(name);
                message.append("\" no encontrada");
                Err(message)
            },
        }
    }
}


/// What a read gives back of a write: after `insert(name, params)`,
/// `get_type(name)` gives the type of the last of `params`, and every other
/// name keeps the type, or the refusal, that it had.
pub proof fn lemma_get_type_after_insert(
    ctx: Map<Seq<char>, Seq<SpecParam>>,
    name: Seq<char>,
    params: Seq<SpecParam>,
    other: Seq<char>,
)
    requires
        params.len() > 0,
    ensures
        type_in(ctx.insert(name, params), name) == Ok::<Type, Seq<char>>(params.last().type_),
        other != name ==> type_in(ctx.insert(name, params), other) == type_in(ctx, other),
{
}

} // verus!
