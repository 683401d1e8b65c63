use vstd::prelude::*;
use vstd::string::*;
use crate::store::name_seq;

verus! {

/// The owners' logins separated by a comma and a space.
pub open spec fn joined(owners: Seq<Seq<char>>) -> Seq<char>
    decreases owners.len(),
{
    if owners.len() == 0 {
        Seq::empty()
    } else if owners.len() == 1 {
        owners[0]
    } else {
        joined(owners.drop_last()) + ", "@ + owners.last()
    }
}

pub open spec fn description_part(description: Option<Seq<char>>) -> Seq<char> {
    match description {
        Some(d) => ": "@ + d,
        None => Seq::empty(),
    }
}

pub open spec fn package_url(name: Seq<char>) -> Seq<char> {
    "https://crates.io/crates/"@ + name
}

/// `(owners) / ` when the package has owners, nothing otherwise.
pub open spec fn owners_part(owners: Seq<Seq<char>>) -> Seq<char> {
    if owners.len() == 0 {
        Seq::empty()
    } else {
        "("@ + joined(owners) + ") / "@
    }
}

/// `(owners) / name: description` and, on the next line, the package's page;
/// the owners and the description only where the package has them.
pub open spec fn announcement(name: Seq<char>, description: Option<Seq<char>>, owners: Seq<Seq<char>>) -> Seq<char> {
    owners_part(owners) + name + description_part(description) + "\n"@ + package_url(name)
}

/// The registry page of a package.
pub fn url_of(name: &String) -> (r: String)
    ensures
        r@ == package_url(name@),
{
    let mut r = String::from_str("https://crates.io/crates/");
    r.append(name.as_str());
    r
}

/// The owners part of an announcement.
fn owners_text(owners: &Vec<String>) -> (r: String)
    ensures
        r@ == owners_part(name_seq(owners@)),
{
    if owners.len() == 0 {
        let r = String::new();
        return r;
    }
    let mut r = String::from_str("(");
    let ghost head = r@;
    let mut i: usize = 0;
    assert(name_seq(owners@).take(0) =~= Seq::<Seq<char>>::empty());
    assert(r@ =~= head + joined(name_seq(owners@).take(0)));
    while i < owners.len()
        invariant
            i <= owners.len(),
            head == "("@,
            r@ == head + joined(name_seq(owners@).take(i as int)),
        decreases owners.len() - i,
    {
        let ghost prefix = name_seq(owners@).take(i as int + 1);
        assert(prefix.drop_last() =~= name_seq(owners@).take(i as int));
        assert(prefix.last() == owners@[i as int]@);
        if i > 0 {
            r.append(", ");
        }
        r.append(owners[i].as_str());
        if i == 0 {
            assert(joined(prefix) == owners@[0]@);
            assert(r@ =~= head + joined(prefix));
        } else {
            assert(r@ =~= head + joined(prefix));
        }
        i = i + 1;
    }
    assert(name_seq(owners@).take(owners.len() as int) =~= name_seq(owners@));
    r.append(") / ");
    assert(r@ =~= owners_part(name_seq(owners@)));
    r
}

/// The text announcing a package: its owners if any, name, description if
/// any, and the link to its registry page.
pub fn announcement_text(name: &String, description: &Option<String>, owners: &Vec<String>) -> (r: String)
    ensures
        r@ == announcement(
            name@,
            match description {
                Some(d) => Some(d@),
                None => None,
            },
            name_seq(owners@),
        ),
{
    let mut r = owners_text(owners);
    r.append(name.as_str());
    match description {
        Some(d) => {
            r.append(": ");
            r.append(d.as_str());
        },
        None => {},
    }
    r.append("\n");
    let url = url_of(name);
    r.append(url.as_str());
    assert(r@ =~= announcement(
        name@,
        match description {
            Some(d) => Some(d@),
            None => None,
        },
        name_seq(owners@),
    ));
    r
}

} // verus!
