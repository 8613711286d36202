use vstd::prelude::*;

verus! {

/// Why the command line cannot start the server.
pub enum ArgsError {
    /// An argument starting with `-` (no flag is recognised).
    UnknownFlag { flag: String },
    /// A second directory argument.
    UnexpectedArgument { arg: String },
    /// No directory argument at all.
    MissingDirectory,
}

/// The outcome of reading the command line, over plain sequences.
pub enum ArgsOutcome {
    /// The one directory given.
    Directory(Seq<char>),
    /// The first flag met.
    UnknownFlag(Seq<char>),
    /// The second directory met.
    UnexpectedArgument(Seq<char>),
    /// No directory was given.
    MissingDirectory,
}

/// Whether an argument is a flag: it starts with `-`.
pub open spec fn is_flag(a: Seq<char>) -> bool {
    a.len() > 0 && a[0] == '-'
}

/// Reads `args` in order, the directory found so far being `dir`: the first flag
/// stops with an error, as does a second directory.
pub open spec fn scan_args(args: Seq<Seq<char>>, dir: Option<Seq<char>>) -> ArgsOutcome
    decreases args.len(),
{
    if args.len() == 0 {
        match dir {
            Some(d) => ArgsOutcome::Directory(d),
            None => ArgsOutcome::MissingDirectory,
        }
    } else if is_flag(args[0]) {
        ArgsOutcome::UnknownFlag(args[0])
    } else if dir is Some {
        ArgsOutcome::UnexpectedArgument(args[0])
    } else {
        scan_args(args.drop_first(), Some(args[0]))
    }
}

/// The arguments as sequences of characters.
pub open spec fn args_view(args: Seq<String>) -> Seq<Seq<char>> {
    args.map_values(|a: String| a@)
}

/// The outcome of a parse, over plain sequences.
pub open spec fn outcome_of(r: Result<String, ArgsError>) -> ArgsOutcome {
    match r {
        Ok(d) => ArgsOutcome::Directory(d@),
        Err(ArgsError::UnknownFlag { flag }) => ArgsOutcome::UnknownFlag(flag@),
        Err(ArgsError::UnexpectedArgument { arg }) => ArgsOutcome::UnexpectedArgument(arg@),
        Err(ArgsError::MissingDirectory) => ArgsOutcome::MissingDirectory,
    }
}

/// Reads the command-line arguments (the program's name left out): exactly one
/// directory, and no flags.
pub fn parse_args(args: &Vec<String>) -> (r: Result<String, ArgsError>)
    ensures
        outcome_of(r) == scan_args(args_view(args@), None),
{
    let ghost all = args_view(args@);
    let mut dir: Option<String> = None;
    let mut i: usize = 0;
    assert(all.subrange(0, all.len() as int) =~= all);
    while i < args.len()
        invariant
            i <= args@.len(),
            all == args_view(args@),
            i == 0 ==> dir is None,
            scan_args(all, None) == scan_args(all.subrange(i as int, all.len() as int), match dir {
                Some(d) => Some(d@),
                None => None,
            }),
        decreases args@.len() - i,
    {
        let a = &args[i];
        let ghost rest = all.subrange(i as int, all.len() as int);
        assert(rest[0] == a@);
        assert(rest.drop_first() =~= all.subrange(i + 1, all.len() as int));
        let flag = a.as_str().unicode_len() > 0 && a.as_str().get_char(0) == '-';
        if flag {
            return Err(ArgsError::UnknownFlag { flag: a.clone() });
        }
        match dir {
            Some(_) => {
                return Err(ArgsError::UnexpectedArgument { arg: a.clone() });
            },
            None => {
                dir = Some(a.clone());
            },
        }
        i = i + 1;
    }
    assert(all.subrange(i as int, all.len() as int) =~= Seq::<Seq<char>>::empty());
    match dir {
        Some(d) => Ok(d),
        None => Err(ArgsError::MissingDirectory),
    }
}

} // verus!
