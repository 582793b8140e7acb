use vstd::prelude::*;

verus! {

/// A vector holding ten and twenty.
pub fn build_vector() -> (v: Vec<i16>)
    ensures
        v@ =~= seq![10i16, 20i16],
{
    let mut v: Vec<i16> = Vec::new();
    v.push(10);
    v.push(20);
    v
}

/// A zeroed pixel buffer of the given dimensions.
pub fn new_pixel_buffer(rows: usize, cols: usize) -> (v: Vec<u8>)
    requires
        rows * cols <= usize::MAX,
    ensures
        v@.len() == rows * cols,
        forall|i: int| 0 <= i < v@.len() ==> v@[i] == 0,
{
    let n = rows * cols;
    let mut v: Vec<u8> = Vec::new();
    let mut i: usize = 0;
    #[verifier::loop_isolation(false)]
    while i < n
        invariant
            i <= n,
            v@.len() == i,
            forall|j: int| 0 <= j < i ==> v@[j] == 0,
        decreases n - i,
    {
        v.push(0);
        i += 1;
    }
    v
}

/// The Padovan numbers: three ones, then each the sum of the numbers three
/// and two places back.
pub open spec fn spec_padovan(n: nat) -> nat
    decreases n,
{
    if n < 3 {
        1
    } else {
        spec_padovan((n - 3) as nat) + spec_padovan((n - 2) as nat)
    }
}

/// The first `count` Padovan numbers; every one of them must fit a machine
/// word.
pub fn padovan(count: usize) -> (v: Vec<u64>)
    requires
        forall|i: int| 0 <= i < count ==> #[trigger] spec_padovan(i as nat) <= u64::MAX,
    ensures
        v@.len() == count,
        forall|i: int| 0 <= i < count ==> v@[i] == #[trigger] spec_padovan(i as nat),
{
    let mut v: Vec<u64> = Vec::new();
    let mut i: usize = 0;
    #[verifier::loop_isolation(false)]
    while i < count
        invariant
            i <= count,
            v@.len() == i,
            forall|j: int| 0 <= j < i ==> v@[j] == #[trigger] spec_padovan(j as nat),
        decreases count - i,
    {
        if i < 3 {
            proof {
                assert(spec_padovan(i as nat) == 1);
            }
            v.push(1);
        } else {
            proof {
                assert(spec_padovan(i as nat) == spec_padovan((i - 3) as nat) + spec_padovan(
                    (i - 2) as nat,
                ));
                let ii: int = i as int;
                assert(spec_padovan(ii as nat) <= u64::MAX);
                assert(spec_padovan(i as nat) <= u64::MAX);
                assert(v@[i - 3] == spec_padovan((i - 3) as nat));
                assert(v@[i - 2] == spec_padovan((i - 2) as nat));
            }
            let next = v[i - 3] + v[i - 2];
            v.push(next);
        }
        i += 1;
    }
    v
}

/// An ordered collection of elements, each node owning its two subtrees.
#[derive(Debug)]
pub enum BinaryTree<T> {
    Empty,
    NonEmpty(Box<TreeNode<T>>),
}

/// One node of a binary tree.
#[derive(Debug)]
pub struct TreeNode<T> {
    pub element: T,
    pub left: BinaryTree<T>,
    pub right: BinaryTree<T>,
}

/// An association from an artist to the works in the collection: the keys
/// are unique, and the order of the entries carries no meaning.
pub type Table = Vec<(String, Vec<String>)>;

/// Push one artist with two works.
fn push_artist(table: &mut Table, artist: &str, work1: &str, work2: &str)
    ensures
        final(table)@.len() == old(table)@.len() + 1,
        forall|i: int| 0 <= i < old(table)@.len() ==> final(table)@[i] == old(table)@[i],
        final(table)@.last().0@ == artist@,
        final(table)@.last().1@.len() == 2,
        final(table)@.last().1@[0]@ == work1@,
        final(table)@.last().1@[1]@ == work2@,
{
    let mut works: Vec<String> = Vec::new();
    works.push(work1.to_owned());
    works.push(work2.to_owned());
    table.push((artist.to_owned(), works));
}

/// The starting table of artists and their works.
pub fn artist_table_creator() -> (t: Table)
    ensures
        t@.len() == 3,
        t@[0].0@ == "Gesualdo"@,
        t@[0].1@.len() == 2,
        t@[0].1@[0]@ == "many madigrals"@,
        t@[0].1@[1]@ == "Tenebrae Responsoria"@,
        t@[1].0@ == "Caravaggio"@,
        t@[1].1@.len() == 2,
        t@[1].1@[0]@ == "The Musicians"@,
        t@[1].1@[1]@ == "The Calling of St. Matthew"@,
        t@[2].0@ == "Cellini"@,
        t@[2].1@.len() == 2,
        t@[2].1@[0]@ == "Perseus with the head of Medusa"@,
        t@[2].1@[1]@ == "a salt cellar"@,
{
    let mut table: Table = Vec::new();
    push_artist(&mut table, "Gesualdo", "many madigrals", "Tenebrae Responsoria");
    push_artist(&mut table, "Caravaggio", "The Musicians", "The Calling of St. Matthew");
    push_artist(&mut table, "Cellini", "Perseus with the head of Medusa", "a salt cellar");
    table
}

/// A reference to the smallest element of a nonempty slice.
pub fn smallest(v: &[i32]) -> (s: &i32)
    requires
        v@.len() > 0,
    ensures
        exists|i: int| 0 <= i < v@.len() && *s == v@[i],
        forall|i: int| 0 <= i < v@.len() ==> *s <= v@[i],
{
    let mut mi: usize = 0;
    let mut i: usize = 1;
    #[verifier::loop_isolation(false)]
    while i < v.len()
        invariant
            mi < i <= v@.len(),
            forall|j: int| 0 <= j < i ==> v@[mi as int] <= v@[j],
        decreases v@.len() - i,
    {
        if v[i] < v[mi] {
            mi = i;
        }
        i += 1;
    }
    &v[mi]
}

/// Given two values, pick whichever one is less; the first on a tie.
pub fn my_min(value1: i64, value2: i64) -> (r: i64)
    ensures
        r == if value1 <= value2 {
            value1
        } else {
            value2
        },
{
    if value1 <= value2 {
        value1
    } else {
        value2
    }
}

/// Order two numbers.
pub fn compare(n: i32, m: i32) -> (r: core::cmp::Ordering)
    ensures
        r == (if n < m {
            core::cmp::Ordering::Less
        } else if n > m {
            core::cmp::Ordering::Greater
        } else {
            core::cmp::Ordering::Equal
        }),
{
    if n < m {
        core::cmp::Ordering::Less
    } else if n > m {
        core::cmp::Ordering::Greater
    } else {
        core::cmp::Ordering::Equal
    }
}

/// The HTTP statuses the examples know.
#[derive(PartialEq, Eq, Structural, Debug)]
pub enum HttpStatus {
    Okay,
    NotModified,
    NotFound,
}

impl HttpStatus {
    /// The numeric code of the status.
    pub fn code(&self) -> (c: u32)
        ensures
            c == (match self {
                HttpStatus::Okay => 200u32,
                HttpStatus::NotModified => 304u32,
                HttpStatus::NotFound => 404u32,
            }),
    {
        match self {
            HttpStatus::Okay => 200,
            HttpStatus::NotModified => 304,
            HttpStatus::NotFound => 404,
        }
    }
}

/// The status a numeric code names, if any: the inverse of `code`.
pub fn http_status_from_u32(n: u32) -> (r: Option<HttpStatus>)
    ensures
        r == (match n {
            200u32 => Some(HttpStatus::Okay),
            304u32 => Some(HttpStatus::NotModified),
            404u32 => Some(HttpStatus::NotFound),
            _ => None::<HttpStatus>,
        }),
{
    match n {
        200 => Some(HttpStatus::Okay),
        304 => Some(HttpStatus::NotModified),
        404 => Some(HttpStatus::NotFound),
        _ => None,
    }
}

/// A number generator counting up from two.
pub struct NumGen {
    pub current: usize,
}

impl NumGen {
    /// The number generator will start from 2.
    pub fn new() -> (g: NumGen)
        ensures
            g.current == 2,
    {
        NumGen { current: 2 }
    }

    /// Hand out the current number and step to the next one.
    pub fn next(&mut self) -> (r: Option<usize>)
        requires
            old(self).current < usize::MAX,
        ensures
            r == Some(old(self).current),
            final(self).current == old(self).current + 1,
    {
        let val = self.current;
        self.current += 1;
        Some(val)
    }
}

/// A memo around a calculation on one number: the calculation runs on the
/// first call only, and every later call hands back that first result,
/// whatever its own argument (the memo does not key on the argument).
pub struct Cacher<T> where T: Fn(u32) -> u32 {
    calculation: T,
    value: Option<u32>,
}

impl<T> Cacher<T> where T: Fn(u32) -> u32 {
    /// The memoized result, if the calculation has run.
    pub closed spec fn spec_cached(&self) -> Option<u32> {
        self.value
    }

    /// The calculation.
    pub closed spec fn spec_calculation(&self) -> T {
        self.calculation
    }

    /// A memo with nothing cached yet.
    pub fn new(calculation: T) -> (c: Cacher<T>)
        ensures
            c.spec_cached() is None,
            c.spec_calculation() == calculation,
    {
        Cacher { calculation, value: None }
    }

    /// The cached result, or the calculation's result on `arg`, cached from
    /// now on.
    pub fn value(&mut self, arg: u32) -> (v: u32)
        requires
            old(self).spec_cached() is None ==> call_requires(old(self).spec_calculation(), (arg,)),
        ensures
            final(self).spec_cached() == Some(v),
            final(self).spec_calculation() == old(self).spec_calculation(),
            match old(self).spec_cached() {
                Some(x) => v == x,
                None => call_ensures(old(self).spec_calculation(), (arg,), v),
            },
    {
        match self.value {
            Some(v) => v,
            None => {
                let v = (self.calculation)(arg);
                self.value = Some(v);
                v
            },
        }
    }
}

/// A memo keyed by the argument: each distinct argument is calculated at
/// most once, and every entry of the table is a result the calculation
/// allows for its own key.
pub struct KeyedCacher<T> where T: Fn(u32) -> u32 {
    calculation: T,
    cached_values: Vec<(u32, u32)>,
}

impl<T> KeyedCacher<T> where T: Fn(u32) -> u32 {
    /// The calculation.
    pub closed spec fn spec_calculation(&self) -> T {
        self.calculation
    }

    /// Every cached pair satisfies the calculation's contract for its key.
    pub closed spec fn wf(&self) -> bool {
        forall|i: int|
            0 <= i < self.cached_values@.len() ==> call_ensures(
                self.calculation,
                ((#[trigger] self.cached_values@[i]).0,),
                self.cached_values@[i].1,
            )
    }

    /// A memo with an empty table.
    pub fn new(calculation: T) -> (c: KeyedCacher<T>)
        ensures
            c.wf(),
            c.spec_calculation() == calculation,
    {
        KeyedCacher { calculation, cached_values: Vec::new() }
    }

    /// The result for `arg`: found in the table, or calculated now and
    /// remembered; either way a result the calculation allows for `arg`.
    pub fn value(&mut self, arg: u32) -> (v: u32)
        requires
            old(self).wf(),
            call_requires(old(self).spec_calculation(), (arg,)),
        ensures
            final(self).wf(),
            final(self).spec_calculation() == old(self).spec_calculation(),
            call_ensures(old(self).spec_calculation(), (arg,), v),
    {
        let n = self.cached_values.len();
        let mut i: usize = 0;
        #[verifier::loop_isolation(false)]
        while i < n
            invariant
                i <= n,
                n == self.cached_values@.len(),
                *self == *old(self),
            decreases n - i,
        {
            if self.cached_values[i].0 == arg {
                return self.cached_values[i].1;
            }
            i += 1;
        }
        let v = (self.calculation)(arg);
        let ghost before = self.cached_values@;
        self.cached_values.push((arg, v));
        proof {
            assert(forall|j: int| 0 <= j < before.len() ==> self.cached_values@[j] == before[j]);
            assert(self.cached_values@.last() == (arg, v));
        }
        v
    }
}

/// One day's workout: either a round of pushups and situps, a run of some
/// minutes, or a break.
#[derive(PartialEq, Eq, Structural, Debug)]
pub enum Workout {
    PushupsAndSitups(u32),
    Run(u32),
    Break,
}

/// Decide the workout: an easy day repeats one calculated count twice; a
/// hard day is a break on the lucky number, else a run.
pub fn generate_workout(intensity: u32, random_number: u32) -> (w: Workout)
    ensures
        w == (if intensity < 25 {
            Workout::PushupsAndSitups(intensity)
        } else if random_number == 3 {
            Workout::Break
        } else {
            Workout::Run(intensity)
        }),
{
    if intensity < 25 {
        Workout::PushupsAndSitups(intensity)
    } else {
        if random_number == 3 {
            Workout::Break
        } else {
            Workout::Run(intensity)
        }
    }
}

/// The arguments of a text replacement: what to find, what to put in its
/// place, where to read, and where to write.
#[derive(Debug)]
pub struct Arguments {
    pub target: String,
    pub replacement: String,
    pub filename: String,
    pub output: String,
}

/// Slot the four positional arguments into place. The caller reports a
/// count other than four; fewer than four cannot be slotted at all.
pub fn args_from(args: &Vec<String>) -> (a: Arguments)
    requires
        args@.len() >= 4,
    ensures
        a.target@ == args@[0]@,
        a.replacement@ == args@[1]@,
        a.filename@ == args@[2]@,
        a.output@ == args@[3]@,
{
    Arguments {
        target: args[0].clone(),
        replacement: args[1].clone(),
        filename: args[2].clone(),
        output: args[3].clone(),
    }
}

} // verus!
