use vstd::prelude::*;

verus! {

/// The closed set of vehicle classes a price applies to.
///
/// A category is one component of a price key, so it needs exact
/// equality; there is no meaningful order between the two classes.
#[derive(PartialEq, Eq, Structural, Clone, Copy, Hash, Debug)]
pub enum Category {
    Car,
    Motorcycle,
}

/// The human-readable label of a category, used in audit messages
/// and as a matrix's friendly name.
pub open spec fn cat_label(cat: Category) -> Seq<char> {
    if cat == Category::Car {
        "Car"@
    } else {
        "Motorcycle"@
    }
}

impl Category {
    /// The human-readable name of the category, used as a matrix's
    /// friendly name.
    pub fn name(&self) -> (r: &'static str)
        ensures
            r@ == cat_label(*self),
    {
        match self {
            Category::Car => "Car",
            Category::Motorcycle => "Motorcycle",
        }
    }

    /// Both categories, in the fixed order the loaders consult them.
    pub fn all() -> (r: Vec<Category>)
        ensures
            r@ == seq![Category::Car, Category::Motorcycle],
    {
        let mut v: Vec<Category> = Vec::new();
        v.push(Category::Car);
        v.push(Category::Motorcycle);
        proof {
            assert(v@ =~= seq![Category::Car, Category::Motorcycle]);
        }
        v
    }
}

} // verus!
