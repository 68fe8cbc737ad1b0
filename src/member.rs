use vstd::prelude::*;
use vstd::string::StringSliceAdditionalSpecFns;

use crate::base_types::Date;
use crate::db_id::DbId;
use crate::names::{add_names, remove_names, views, NameIndex};
use crate::related_party::{all_digits, digits_value, parse_decimal};

verus! {

/// A member of the organisation
#[derive(Clone, Debug, Default)]
pub struct Member {
    pub name: String,
    pub member_id: usize,
    pub address: String,
    pub email: String,
    pub house_number: String,
    pub postcode: String,
    pub telephone: String,
    pub tax_name: String,
    pub last_gift_aid: Option<Date>,
    pub account_descrs: Vec<String>,
    pub aliases: Vec<String>,
}

impl Member {
    /// A member with a name and a number, and nothing else
    pub fn new(name: String, member_id: usize) -> (r: Self)
        ensures
            r.name == name,
            r.member_id == member_id,
            r.address@.len() == 0 && r.email@.len() == 0 && r.house_number@.len() == 0,
            r.postcode@.len() == 0 && r.telephone@.len() == 0 && r.tax_name@.len() == 0,
            r.last_gift_aid is None,
            r.account_descrs@.len() == 0 && r.aliases@.len() == 0,
    {
        Member {
            name,
            member_id,
            address: String::new(),
            email: String::new(),
            house_number: String::new(),
            postcode: String::new(),
            telephone: String::new(),
            tax_name: String::new(),
            last_gift_aid: None,
            account_descrs: Vec::new(),
            aliases: Vec::new(),
        }
    }

    /// The member's name
    pub fn name(&self) -> (r: &str)
        ensures
            r@ == self.name@,
    {
        self.name.as_str()
    }

    /// The member's other names
    pub fn aliases(&self) -> (r: &[String])
        ensures
            r@ == self.aliases@,
    {
        self.aliases.as_slice()
    }

    /// The member's number
    pub fn member_id(&self) -> (r: usize)
        ensures
            r == self.member_id,
    {
        self.member_id
    }

    /// The member's address
    pub fn address(&self) -> (r: &str)
        ensures
            r@ == self.address@,
    {
        self.address.as_str()
    }

    /// Rename the member
    pub fn change_name(&mut self, name: String)
        ensures
            *final(self) == (Member { name, ..*old(self) }),
    {
        self.name = name;
    }

    /// Add another name for the member
    pub fn add_alias(&mut self, alias: String)
        ensures
            final(self).aliases@ == old(self).aliases@.push(alias),
            *final(self) == (Member { aliases: final(self).aliases, ..*old(self) }),
    {
        self.aliases.push(alias);
    }

    /// Remove every other name of the member
    pub fn clear_aliases(&mut self)
        ensures
            final(self).aliases@.len() == 0,
            *final(self) == (Member { aliases: final(self).aliases, ..*old(self) }),
    {
        self.aliases.clear();
    }

    /// Empty the address, email, postcode, telephone, tax name and house number
    pub fn clear_address_info(&mut self)
        ensures
            final(self).address@.len() == 0 && final(self).email@.len() == 0,
            final(self).postcode@.len() == 0 && final(self).telephone@.len() == 0,
            final(self).tax_name@.len() == 0 && final(self).house_number@.len() == 0,
            *final(self) == (Member {
                address: final(self).address,
                email: final(self).email,
                postcode: final(self).postcode,
                telephone: final(self).telephone,
                tax_name: final(self).tax_name,
                house_number: final(self).house_number,
                ..*old(self)
            }),
    {
        self.address = String::new();
        self.email = String::new();
        self.postcode = String::new();
        self.telephone = String::new();
        self.tax_name = String::new();
        self.house_number = String::new();
    }

    /// Set the postcode
    pub fn change_postcode(&mut self, postcode: String)
        ensures
            *final(self) == (Member { postcode, ..*old(self) }),
    {
        self.postcode = postcode;
    }

    /// Set the address
    pub fn change_address(&mut self, address: String)
        ensures
            *final(self) == (Member { address, ..*old(self) }),
    {
        self.address = address;
    }

    /// Set the email address
    pub fn change_email(&mut self, email: String)
        ensures
            *final(self) == (Member { email, ..*old(self) }),
    {
        self.email = email;
    }

    /// Set the house number
    pub fn change_house_number(&mut self, house_number: String)
        ensures
            *final(self) == (Member { house_number, ..*old(self) }),
    {
        self.house_number = house_number;
    }

    /// Set the telephone number
    pub fn change_telephone(&mut self, telephone: String)
        ensures
            *final(self) == (Member { telephone, ..*old(self) }),
    {
        self.telephone = telephone;
    }

    /// Set the name used for tax
    pub fn change_tax_name(&mut self, tax_name: String)
        ensures
            *final(self) == (Member { tax_name, ..*old(self) }),
    {
        self.tax_name = tax_name;
    }

    /// Remove every bank descriptor of the member
    pub fn clear_account_descr(&mut self)
        ensures
            final(self).account_descrs@.len() == 0,
            *final(self) == (Member { account_descrs: final(self).account_descrs, ..*old(self) }),
    {
        self.account_descrs.clear();
    }

    /// Add a descriptor by which the member shows in bank statements
    pub fn add_account_descr(&mut self, descr: String)
        ensures
            final(self).account_descrs@ == old(self).account_descrs@.push(descr),
            *final(self) == (Member { account_descrs: final(self).account_descrs, ..*old(self) }),
    {
        self.account_descrs.push(descr);
    }

    /// The descriptors by which the member shows in bank statements
    pub fn account_descrs(&self) -> (r: &[String])
        ensures
            r@ == self.account_descrs@,
    {
        self.account_descrs.as_slice()
    }

    /// The date of the last gift aid declaration, if any
    pub fn last_gift_aid(&self) -> (r: Option<Date>)
        ensures
            r == self.last_gift_aid,
    {
        self.last_gift_aid
    }
}

/// The members, by key, with a lookup by name and alias
pub struct DbMembers {
    array: Vec<(DbId, usize)>,
    map: NameIndex,
}

impl DbMembers {
    /// Each member's key and number, in the order they were added
    pub closed spec fn spec_members(&self) -> Seq<(DbId, usize)> {
        self.array@
    }

    /// The names and aliases, with the key of the member each names
    pub closed spec fn spec_names(&self) -> Map<Seq<char>, DbId> {
        self.map@
    }

    pub closed spec fn wf(&self) -> bool {
        self.map.wf()
    }

    /// The key of the first member numbered `member_id`
    pub open spec fn spec_member_id(&self, member_id: usize) -> Option<DbId> {
        if exists|i: int| 0 <= i < self.spec_members().len() && self.spec_members()[i].1 == member_id {
            let i = choose|i: int|
                0 <= i < self.spec_members().len() && self.spec_members()[i].1 == member_id && forall|
                    k: int,
                | 0 <= k < i ==> self.spec_members()[k].1 != member_id;
            Some(self.spec_members()[i].0)
        } else {
            None
        }
    }

    /// No members
    pub fn new() -> (r: Self)
        ensures
            r.wf(),
            r.spec_members().len() == 0,
            r.spec_names() == Map::<Seq<char>, DbId>::empty(),
    {
        DbMembers { array: Vec::new(), map: NameIndex::new() }
    }

    /// The keys of the members, in the order they were added
    pub fn db_ids(&self) -> (r: Vec<DbId>)
        ensures
            r@ == self.spec_members().map_values(|e: (DbId, usize)| e.0),
    {
        let mut r: Vec<DbId> = Vec::new();
        let mut i: usize = 0;
        while i < self.array.len()
            invariant
                i <= self.array@.len(),
                r@ == self.array@.take(i as int).map_values(|e: (DbId, usize)| e.0),
            decreases self.array@.len() - i,
        {
            r.push(self.array[i].0);
            assert(self.array@.take(i as int + 1) =~= self.array@.take(i as int).push(self.array@[i as int]));
            i += 1;
        }
        assert(self.array@.take(self.array@.len() as int) =~= self.array@);
        r
    }

    /// The numbers of the members, in the order they were added
    pub fn member_ids(&self) -> (r: Vec<usize>)
        ensures
            r@ == self.spec_members().map_values(|e: (DbId, usize)| e.1),
    {
        let mut r: Vec<usize> = Vec::new();
        let mut i: usize = 0;
        while i < self.array.len()
            invariant
                i <= self.array@.len(),
                r@ == self.array@.take(i as int).map_values(|e: (DbId, usize)| e.1),
            decreases self.array@.len() - i,
        {
            r.push(self.array[i].1);
            assert(self.array@.take(i as int + 1) =~= self.array@.take(i as int).push(self.array@[i as int]));
            i += 1;
        }
        assert(self.array@.take(self.array@.len() as int) =~= self.array@);
        r
    }

    /// Add member `id`, unless its number, its name or one of its aliases is
    /// taken; its aliases then name it too
    pub fn add_member(&mut self, id: DbId, member_id: usize, name: &str, aliases: &[String]) -> (r: bool)
        requires
            old(self).wf(),
        ensures
            final(self).wf(),
            r == (old(self).spec_member_id(member_id) is None && !old(self).spec_names().contains_key(
                name@,
            ) && !exists|i: int|
                0 <= i < aliases@.len() && old(self).spec_names().contains_key(#[trigger] aliases@[i]@)),
            r ==> final(self).spec_members() == old(self).spec_members().push((id, member_id))
                && final(self).spec_names() == add_names(
                old(self).spec_names().insert(name@, id),
                views(aliases@),
                id,
            ),
            !r ==> final(self).spec_members() == old(self).spec_members() && final(self).spec_names()
                == old(self).spec_names(),
    {
        if self.has_member_id(member_id) {
            return false;
        }
        if self.map.contains(name) {
            return false;
        }
        if self.map.contains_any(aliases) {
            return false;
        }
        self.array.push((id, member_id));
        self.map.insert(name.to_owned(), id);
        self.map.insert_all(aliases, id);
        true
    }

    /// Take the aliases `aliases` out of the lookup
    pub fn remove_member_aliases(&mut self, aliases: &[String])
        requires
            old(self).wf(),
        ensures
            final(self).wf(),
            final(self).spec_members() == old(self).spec_members(),
            final(self).spec_names() == remove_names(old(self).spec_names(), views(aliases@)),
    {
        self.map.remove_all(aliases);
    }

    /// Add the aliases `aliases` of member `id` that are not taken
    pub fn add_member_aliases(&mut self, id: DbId, aliases: &[String])
        requires
            old(self).wf(),
        ensures
            final(self).wf(),
            final(self).spec_members() == old(self).spec_members(),
            final(self).spec_names() == add_names(old(self).spec_names(), views(aliases@), id),
    {
        self.map.insert_all(aliases, id);
    }

    /// True if `name` names a member
    pub fn has_member(&self, name: &str) -> (r: bool)
        requires
            self.wf(),
        ensures
            r == self.spec_names().contains_key(name@),
    {
        self.map.contains(name)
    }

    /// The member `name` names: by number if it is all digits and a number
    /// that fits, else by name or alias
    pub fn get_member(&self, name: &str) -> (r: Option<DbId>)
        requires
            self.wf(),
        ensures
            ({
                let b = name.spec_bytes();
                if b.len() > 0 && all_digits(b) && digits_value(b) <= usize::MAX {
                    r == self.spec_member_id(digits_value(b) as usize)
                } else {
                    r == (if self.spec_names().contains_key(name@) {
                        Some(self.spec_names()[name@])
                    } else {
                        None::<DbId>
                    })
                }
            }),
    {
        if let Some(n) = parse_decimal(name.as_bytes()) {
            return self.get_member_id(n);
        }
        self.map.get(name)
    }

    /// True if a member is numbered `id`
    pub fn has_member_id(&self, id: usize) -> (r: bool)
        ensures
            r == self.spec_member_id(id) is Some,
    {
        self.get_member_id(id).is_some()
    }

    /// The key of the first member numbered `id`
    pub fn get_member_id(&self, id: usize) -> (r: Option<DbId>)
        ensures
            r == self.spec_member_id(id),
    {
        let mut i: usize = 0;
        while i < self.array.len()
            invariant
                i <= self.array@.len(),
                forall|k: int| 0 <= k < i ==> self.array@[k].1 != id,
            decreases self.array@.len() - i,
        {
            if self.array[i].1 == id {
                proof {
                    let j = choose|j: int|
                        0 <= j < self.spec_members().len() && self.spec_members()[j].1 == id && forall|
                            k: int,
                        | 0 <= k < j ==> self.spec_members()[k].1 != id;
                    assert(j == i) by {
                        if j > i {
                            assert(self.spec_members()[i as int].1 == id);
                        }
                    }
                }
                return Some(self.array[i].0);
            }
            i += 1;
        }
        None
    }
}

} // verus!
