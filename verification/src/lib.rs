use vstd::prelude::*;

pub mod cycle;
pub mod portal;
pub mod solver;

verus! {

/// Joins a model directory and a file name into one path string,
/// separated by a single `/`.
pub fn get_model_path(model_dir: &str, filename: &str) -> (r: String)
    ensures
        r@ == model_dir@ + seq!['/'] + filename@,
{
    let mut path = String::new();
    path.append(model_dir);
    path.append("/");
    proof {
        reveal_strlit("/");
        assert(path@ =~= model_dir@ + seq!['/']);
    }
    path.append(filename);
    path
}

} // verus!
