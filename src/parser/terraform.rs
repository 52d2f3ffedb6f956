//! Terraform input variables.
use vstd::prelude::*;

verus! {

/// A `variable` block of a Terraform file.
#[derive(Debug, Clone, PartialEq, Eq)]
pub struct TerraformVariable {
    /// The block's first label.
    pub name: String,
    /// The file that declares it.
    pub path: String,
}

/// A top-level block of a Terraform file: its type and its labels.
#[derive(Debug, Clone)]
pub struct HclBlock {
    pub identifier: String,
    pub labels: Vec<String>,
}

/// The variables that the first `n` blocks declare: each `variable` block with a label,
/// named by its first label.
pub open spec fn declared_upto(blocks: Seq<HclBlock>, n: int) -> Seq<Seq<char>>
    decreases n,
{
    if n <= 0 || n > blocks.len() {
        Seq::empty()
    } else {
        let prev = declared_upto(blocks, n - 1);
        let b = blocks[n - 1];
        if b.identifier@ == "variable"@ && b.labels@.len() > 0 {
            prev.push(b.labels@[0]@)
        } else {
            prev
        }
    }
}

pub open spec fn variable_names(v: Seq<TerraformVariable>) -> Seq<Seq<char>> {
    v.map_values(|t: TerraformVariable| t.name@)
}

/// The variables that the blocks of the file at `path` declare, in order.
pub fn declared_variables(path: &String, blocks: &Vec<HclBlock>) -> (r: Vec<TerraformVariable>)
    ensures
        variable_names(r@) == declared_upto(blocks@, blocks@.len() as int),
        forall|i: int| 0 <= i < r@.len() ==> (#[trigger] r@[i]).path@ == path@,
{
    let mut out: Vec<TerraformVariable> = Vec::new();
    let mut i: usize = 0;
    while i < blocks.len()
        invariant
            i <= blocks@.len(),
            variable_names(out@) == declared_upto(blocks@, i as int),
            forall|j: int| 0 <= j < out@.len() ==> (#[trigger] out@[j]).path@ == path@,
        decreases blocks.len() - i,
    {
        let b = &blocks[i];
        if b.identifier == "variable".to_owned() && b.labels.len() > 0 {
            let v = TerraformVariable { name: b.labels[0].clone(), path: path.clone() };
            let ghost prev = variable_names(out@);
            out.push(v);
            assert(variable_names(out@) =~= prev.push(v.name@));
        }
        i += 1;
    }
    out
}

} // verus!
