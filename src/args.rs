//! Command-line arguments: named options, each a flag or followed by a
//! value.
use vstd::prelude::*;
use vstd::string::StringExecFns;
use crate::conf::ConfError;

verus! {

pub enum ArgKind {
    /// A name that stands alone.
    Flag(String),
    /// A name followed by its value.
    Value(String),
    /// A name that stands alone here; its values are not collected.
    Values(String),
}

pub open spec fn kind_name(k: ArgKind) -> Seq<char> {
    match k {
        ArgKind::Flag(s) => s@,
        ArgKind::Value(s) => s@,
        ArgKind::Values(s) => s@,
    }
}

/// 0 for a flag, 1 for a value option, 2 for a multi-value option.
pub open spec fn kind_tag(k: ArgKind) -> u8 {
    match k {
        ArgKind::Flag(_) => 0,
        ArgKind::Value(_) => 1,
        ArgKind::Values(_) => 2,
    }
}

pub type DefView = (u8, Seq<char>);

pub open spec fn defs_view(defs: Seq<ArgKind>) -> Seq<DefView> {
    defs.map_values(|k: ArgKind| (kind_tag(k), kind_name(k)))
}

/// Index of the first definition named `name`, or -1.
pub open spec fn def_index(defs: Seq<DefView>, name: Seq<char>, i: int) -> int
    decreases defs.len() - i,
{
    if i < 0 || i >= defs.len() {
        -1
    } else if defs[i].1 == name {
        i
    } else {
        def_index(defs, name, i + 1)
    }
}

proof fn lemma_def_index_bounds(defs: Seq<DefView>, name: Seq<char>, i: int)
    requires
        0 <= i,
    ensures
        def_index(defs, name, i) == -1 || (i <= def_index(defs, name, i) < defs.len()),
    decreases defs.len() - i,
{
    if i < defs.len() && defs[i].1 != name {
        lemma_def_index_bounds(defs, name, i + 1);
    }
}

pub type ArgPairs = Seq<(Seq<char>, Seq<char>)>;

pub open spec fn arg_index(m: ArgPairs, k: Seq<char>, i: int) -> int
    decreases m.len() - i,
{
    if i < 0 || i >= m.len() {
        -1
    } else if m[i].0 == k {
        i
    } else {
        arg_index(m, k, i + 1)
    }
}

/// Stores `k = v`, replacing an earlier value of `k`.
pub open spec fn put_arg(m: ArgPairs, k: Seq<char>, v: Seq<char>) -> ArgPairs {
    let i = arg_index(m, k, 0);
    if i >= 0 {
        m.update(i, (k, v))
    } else {
        m.push((k, v))
    }
}

/// Reads the arguments from `idx` on: an unknown name stops with that name;
/// a value option takes the next argument as its value (none if it is
/// last); other options stand alone.
pub open spec fn parse_from(defs: Seq<DefView>, args: Seq<Seq<char>>, idx: int, store: ArgPairs) -> Result<
    ArgPairs,
    Seq<char>,
>
    decreases args.len() + 1 - idx,
{
    if idx < 0 || idx >= args.len() {
        Ok(store)
    } else {
        let d = def_index(defs, args[idx], 0);
        if d < 0 {
            Err(args[idx])
        } else if defs[d].0 == 1 {
            if idx + 1 < args.len() {
                parse_from(defs, args, idx + 2, put_arg(store, args[idx], args[idx + 1]))
            } else {
                parse_from(defs, args, idx + 2, store)
            }
        } else {
            parse_from(defs, args, idx + 1, store)
        }
    }
}

pub open spec fn arg_views(args: Seq<String>) -> Seq<Seq<char>> {
    args.map_values(|s: String| s@)
}

pub open spec fn store_view(m: Seq<(String, String)>) -> ArgPairs {
    m.map_values(|p: (String, String)| (p.0@, p.1@))
}

pub struct ArgsParser {
    defs: Vec<ArgKind>,
}

fn clone_kind(k: &ArgKind) -> (r: ArgKind)
    ensures
        r == *k,
{
    match k {
        ArgKind::Flag(s) => ArgKind::Flag(s.clone()),
        ArgKind::Value(s) => ArgKind::Value(s.clone()),
        ArgKind::Values(s) => ArgKind::Values(s.clone()),
    }
}

pub fn store_position(m: &Vec<(String, String)>, k: &String) -> (r: Option<usize>)
    ensures
        r matches Some(i) ==> arg_index(store_view(m@), k@, 0) == i && i < m@.len(),
        r is None ==> arg_index(store_view(m@), k@, 0) == -1,
{
    let mut i: usize = 0;
    while i < m.len()
        invariant
            i <= m@.len(),
            arg_index(store_view(m@), k@, 0) == arg_index(store_view(m@), k@, i as int),
        decreases m@.len() - i,
    {
        if m[i].0 == *k {
            return Some(i);
        }
        i = i + 1;
    }
    None
}

fn store_put(m: &mut Vec<(String, String)>, k: String, v: String)
    ensures
        store_view(final(m)@) == put_arg(store_view(old(m)@), k@, v@),
{
    match store_position(m, &k) {
        Some(i) => {
            m.set(i, (k, v));
        },
        None => {
            m.push((k, v));
        },
    }
    assert(store_view(m@) =~= put_arg(store_view(old(m)@), k@, v@));
}

impl ArgsParser {
    pub closed spec fn spec_defs(&self) -> Seq<ArgKind> {
        self.defs@
    }

    /// Value of `k` in stored arguments.
    pub open spec fn lookup(m: ArgPairs, k: Seq<char>) -> Option<Seq<char>> {
        let i = arg_index(m, k, 0);
        if i >= 0 {
            Some(m[i].1)
        } else {
            None
        }
    }

    pub fn new() -> (r: ArgsParser)
        ensures
            r.spec_defs() == Seq::<ArgKind>::empty(),
    {
        ArgsParser { defs: Vec::new() }
    }

    pub fn add(&mut self, kind: ArgKind)
        ensures
            final(self).spec_defs() == old(self).spec_defs().push(kind),
    {
        self.defs.push(kind);
    }

    /// Parses `args`, whose first element is the program name. Fails on
    /// the first name that no definition knows.
    pub fn parse(&mut self, args: &Vec<String>) -> (r: Result<Vec<(String, String)>, ConfError>)
        ensures
            final(self).spec_defs() == old(self).spec_defs(),
            parse_from(defs_view(old(self).spec_defs()), arg_views(args@), 1, Seq::empty()) matches Ok(m)
                ==> r matches Ok(v) && store_view(v@) == m,
            parse_from(defs_view(old(self).spec_defs()), arg_views(args@), 1, Seq::empty()) matches Err(name)
                ==> r matches Err(e) && e.spec_message() == "Unknown argument '"@ + name + "'"@,
    {
        let ghost a = arg_views(args@);
        let mut storage: Vec<(String, String)> = Vec::new();
        assert(store_view(storage@) =~= Seq::<(Seq<char>, Seq<char>)>::empty());
        let mut idx: usize = 1;
        while idx < args.len()
            invariant
                1 <= idx <= args@.len() + 1,
                a == arg_views(args@),
                parse_from(defs_view(self.defs@), a, idx as int, store_view(storage@)) == parse_from(
                    defs_view(self.defs@),
                    a,
                    1,
                    Seq::empty(),
                ),
            decreases args@.len() + 1 - idx,
        {
            let name = &args[idx];
            assert(a[idx as int] == name@);
            assert(a.len() == args@.len());
            let ghost before = store_view(storage@);
            let ghost d = def_index(defs_view(self.defs@), a[idx as int], 0);
            let kind = self.get_arg_kind(name);
            proof {
                if d >= 0 {
                    lemma_def_index_bounds(defs_view(self.defs@), a[idx as int], 0);
                    assert(defs_view(self.defs@)[d] == (kind_tag(self.defs@[d]), kind_name(
                        self.defs@[d],
                    )));
                }
            }
            match kind {
                None => {
                    let mut msg = String::from_str("Unknown argument '");
                    msg.append(name.as_str());
                    msg.append("'");
                    return Err(ConfError::from_string(msg));
                },
                Some(ArgKind::Value(_)) => {
                    if idx + 1 < args.len() {
                        assert(a[idx + 1] == args@[idx + 1]@);
                        let k = name.clone();
                        let v = args[idx + 1].clone();
                        store_put(&mut storage, k, v);
                        assert(store_view(storage@) == put_arg(before, a[idx as int], a[idx + 1]));
                        assert(parse_from(defs_view(self.defs@), a, idx as int, before) == parse_from(
                            defs_view(self.defs@),
                            a,
                            idx + 2,
                            store_view(storage@),
                        ));
                        idx = idx + 2;
                    } else {
                        assert(parse_from(defs_view(self.defs@), a, idx as int, before) == parse_from(
                            defs_view(self.defs@),
                            a,
                            idx + 2,
                            before,
                        ));
                        idx = args.len();
                    }
                },
                Some(_) => {
                    idx = idx + 1;
                },
            }
        }
        Ok(storage)
    }

    /// The first definition named `name`.
    fn get_arg_kind(&self, name: &String) -> (r: Option<ArgKind>)
        ensures
            def_index(defs_view(self.defs@), name@, 0) < 0 ==> r is None,
            def_index(defs_view(self.defs@), name@, 0) >= 0 ==> r == Some(
                self.defs@[def_index(defs_view(self.defs@), name@, 0)],
            ),
    {
        let mut i: usize = 0;
        while i < self.defs.len()
            invariant
                i <= self.defs@.len(),
                def_index(defs_view(self.defs@), name@, 0) == def_index(defs_view(self.defs@), name@, i as int),
            decreases self.defs@.len() - i,
        {
            let matches = match &self.defs[i] {
                ArgKind::Flag(flag) => *flag == *name,
                ArgKind::Value(flag) => *flag == *name,
                ArgKind::Values(flag) => *flag == *name,
            };
            if matches {
                return Some(clone_kind(&self.defs[i]));
            }
            i = i + 1;
        }
        None
    }
}

} // verus!
