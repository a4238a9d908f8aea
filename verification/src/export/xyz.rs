//! Column tables of co-registered maps: which maps can share a table, and
//! the comment line that names its columns. The samples are written by the
//! application.
use vstd::prelude::*;
use vstd::string::*;

verus! {

/// Why maps of these shapes (rows, columns) cannot share a table, if they
/// cannot: there must be at least one, and all must have the shape of the
/// first, which is the table's.
pub fn check_shapes(shapes: &[(usize, usize)]) -> (r: Result<(usize, usize), String>)
    ensures
        shapes@.len() == 0 ==> (r matches Err(m) && m@ == "write_table needs at least one map"@),
        shapes@.len() > 0 && (forall|i: int| 0 <= i < shapes@.len() ==> #[trigger] shapes@[i] == shapes@[0])
            ==> r == Ok::<(usize, usize), String>(shapes@[0]),
        shapes@.len() > 0 && (exists|i: int| 0 <= i < shapes@.len() && #[trigger] shapes@[i] != shapes@[0])
            ==> (r matches Err(m) && m@ == "all maps in a table must have the same shape"@),
{
    if shapes.len() == 0 {
        return Err(String::from_str("write_table needs at least one map"));
    }
    let first = shapes[0];
    let mut i: usize = 1;
    while i < shapes.len()
        invariant
            1 <= i <= shapes@.len(),
            first == shapes@[0],
            forall|j: int| 0 <= j < i ==> #[trigger] shapes@[j] == first,
        decreases shapes@.len() - i,
    {
        if shapes[i].0 != first.0 || shapes[i].1 != first.1 {
            return Err(String::from_str("all maps in a table must have the same shape"));
        }
        i = i + 1;
    }
    Ok(first)
}

/// `"# x_m y_m"` followed by a space and each column name, in order.
pub open spec fn header_of(names: Seq<Seq<char>>) -> Seq<char>
    decreases names.len(),
{
    if names.len() == 0 {
        "# x_m y_m"@
    } else {
        header_of(names.drop_last()) + " "@ + names.last()
    }
}

pub open spec fn name_texts(names: Seq<&str>) -> Seq<Seq<char>> {
    names.map_values(|n: &str| n@)
}

/// The comment line that names a table's columns: `x_m`, `y_m`, then one
/// per map.
pub fn table_header(names: &[&str]) -> (r: String)
    ensures
        r@ == header_of(name_texts(names@)),
{
    let mut s = String::from_str("# x_m y_m");
    let mut i: usize = 0;
    proof {
        assert(name_texts(names@).take(0) =~= Seq::<Seq<char>>::empty());
    }
    while i < names.len()
        invariant
            i <= names@.len(),
            s@ == header_of(name_texts(names@).take(i as int)),
        decreases names@.len() - i,
    {
        s.append(" ");
        s.append(names[i]);
        proof {
            let t = name_texts(names@);
            assert(t.take(i + 1).drop_last() =~= t.take(i as int));
            assert(t.take(i + 1).last() == names@[i as int]@);
        }
        i = i + 1;
    }
    proof {
        assert(name_texts(names@).take(i as int) =~= name_texts(names@));
    }
    s
}

} // verus!
