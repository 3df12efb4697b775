//! A list of employees that borrow their names, searched by id.
use vstd::prelude::*;

verus! {

pub struct Employee<'a> {
    pub name: &'a str,
    pub id: u16,
}

pub struct Employees<'b> {
    employees: Vec<Employee<'b>>,
}

impl<'a> Employees<'a> {
    /// The ids of the employees, in the order they were added.
    pub closed spec fn ids(&self) -> Seq<u16> {
        self.employees@.map_values(|e: Employee<'a>| e.id)
    }

    /// The names of the employees, in the order they were added.
    pub closed spec fn names(&self) -> Seq<Seq<char>> {
        self.employees@.map_values(|e: Employee<'a>| e.name@)
    }

    /// No employee yet.
    pub fn new_employees() -> (r: Self)
        ensures
            r.ids().len() == 0,
            r.names().len() == 0,
    {
        Employees { employees: Vec::new() }
    }

    /// The first employee added with `id`, if any.
    pub fn find_by(&self, id: u16) -> (r: Option<&Employee<'a>>)
        ensures
            match r {
                Some(e) => exists|i: int|
                    0 <= i < self.ids().len() && self.ids()[i] == id && e.id == id && e.name@
                        == self.names()[i] && forall|j: int| 0 <= j < i ==> self.ids()[j] != id,
                None => forall|i: int| 0 <= i < self.ids().len() ==> self.ids()[i] != id,
            },
    {
        let n = self.employees.len();
        let mut i: usize = 0;
        while i < n
            invariant
                n == self.employees@.len(),
                i <= n,
                forall|j: int| 0 <= j < i ==> self.ids()[j] != id,
            decreases n - i,
        {
            let e = &self.employees[i];
            if e.id == id {
                assert(self.ids()[i as int] == id);
                assert(self.names()[i as int] == e.name@);
                return Some(e);
            }
            i = i + 1;
        }
        None
    }

    /// Adds `employee` after the others.
    pub fn add(&mut self, employee: Employee<'a>)
        ensures
            final(self).ids() == old(self).ids().push(employee.id),
            final(self).names() == old(self).names().push(employee.name@),
    {
        let ghost e = employee;
        self.employees.push(employee);
        assert(self.ids() =~= old(self).ids().push(e.id));
        assert(self.names() =~= old(self).names().push(e.name@));
    }
}

} // verus!
