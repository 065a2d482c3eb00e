use vstd::prelude::*;

verus! {

/// A named snapshot of a virtual machine.
pub struct VMSnapshot {
    pub name: String,
}

/// A virtual machine definition.
pub struct VM {
    pub name: String,
    /// Memory in megabytes.
    pub ram: usize,
    pub cpus: usize,
    /// Path of the disk image.
    pub disk_image: String,
    /// Path of an installation image to boot from, if any.
    pub iso_path: Option<String>,
    pub snapshots: Vec<VMSnapshot>,
}

/// Why a request to the virtual machine registry was refused.
#[derive(Clone, Copy, Debug, PartialEq, Eq, Structural)]
pub enum VmError {
    /// A machine of that name exists already.
    AlreadyExists,
    /// No machine has that name.
    NotFound,
    /// The machine has a snapshot of that name already.
    SnapshotExists,
    /// The machine has no snapshot of that name.
    SnapshotNotFound,
}

/// Whether a machine in `s` is called `name`.
pub open spec fn has_vm(s: Seq<VM>, name: Seq<char>) -> bool {
    exists|i: int| 0 <= i < s.len() && #[trigger] s[i].name@ == name
}

/// Position of the machine called `name` in `s` (meaningful when there is one).
pub open spec fn vm_pos(s: Seq<VM>, name: Seq<char>) -> int {
    choose|i: int| 0 <= i < s.len() && #[trigger] s[i].name@ == name
}

/// No two machines share a name.
pub open spec fn vm_names_distinct(s: Seq<VM>) -> bool {
    forall|i: int, j: int| 0 <= i < s.len() && 0 <= j < s.len() && i != j ==> s[i].name@ != s[j].name@
}

/// Whether a snapshot in `s` is called `name`.
pub open spec fn has_snapshot(s: Seq<VMSnapshot>, name: Seq<char>) -> bool {
    exists|i: int| 0 <= i < s.len() && #[trigger] s[i].name@ == name
}

/// Whether `vm` and `other` are the same but for their snapshots.
pub open spec fn same_settings(vm: VM, other: VM) -> bool {
    &&& vm.name@ == other.name@
    &&& vm.ram == other.ram
    &&& vm.cpus == other.cpus
    &&& vm.disk_image@ == other.disk_image@
    &&& opt_view(vm.iso_path) == opt_view(other.iso_path)
}

/// The text of an optional string.
pub open spec fn opt_view(s: Option<String>) -> Option<Seq<char>> {
    match s {
        Some(t) => Some(t@),
        None => None,
    }
}

/// The text of an optional string slice.
pub open spec fn opt_str_view(s: Option<&str>) -> Option<Seq<char>> {
    match s {
        Some(t) => Some(t@),
        None => None,
    }
}

proof fn lemma_vm_at(s: Seq<VM>, i: int)
    requires
        vm_names_distinct(s),
        0 <= i < s.len(),
    ensures
        has_vm(s, s[i].name@),
        vm_pos(s, s[i].name@) == i,
{
    let j = vm_pos(s, s[i].name@);
    assert(s[i].name@ == s[i].name@);
    assert(0 <= j < s.len() && s[j].name@ == s[i].name@);
}

/// The registry of virtual machines, by unique name.
pub struct VMManager {
    vms: Vec<VM>,
}

impl VMManager {
    /// The machines, in order of creation.
    pub closed spec fn vms(&self) -> Seq<VM> {
        self.vms@
    }

    pub open spec fn wf(&self) -> bool {
        vm_names_distinct(self.vms())
    }

    pub fn new() -> (r: Self)
        ensures
            r.wf(),
            r.vms() == Seq::<VM>::empty(),
    {
        VMManager { vms: Vec::new() }
    }

    /// The machines, in order of creation.
    pub fn list_vms(&self) -> (r: &Vec<VM>)
        ensures
            r@ == self.vms(),
    {
        &self.vms
    }

    fn find(&self, name: &str) -> (r: Option<usize>)
        requires
            self.wf(),
        ensures
            match r {
                Some(i) => i < self.vms().len() && self.vms()[i as int].name@ == name@ && has_vm(
                    self.vms(),
                    name@,
                ) && vm_pos(self.vms(), name@) == i,
                None => !has_vm(self.vms(), name@),
            },
    {
        let key = name.to_owned();
        let mut i: usize = 0;
        while i < self.vms.len()
            invariant
                self.wf(),
                key@ == name@,
                i <= self.vms@.len(),
                forall|j: int| 0 <= j < i ==> self.vms@[j].name@ != name@,
            decreases self.vms@.len() - i,
        {
            if self.vms[i].name == key {
                proof {
                    lemma_vm_at(self.vms@, i as int);
                }
                return Some(i);
            }
            i = i + 1;
        }
        None
    }

    /// The machine called `name`.
    pub fn get_vm(&self, name: &str) -> (r: Option<&VM>)
        requires
            self.wf(),
        ensures
            match r {
                Some(vm) => has_vm(self.vms(), name@) && *vm == self.vms()[vm_pos(self.vms(), name@)],
                None => !has_vm(self.vms(), name@),
            },
    {
        match self.find(name) {
            Some(i) => Some(&self.vms[i]),
            None => None,
        }
    }

    /// Adds a machine called `name` with no snapshots; refused if the name
    /// is taken.
    pub fn create_vm(
        &mut self,
        name: &str,
        ram: usize,
        cpus: usize,
        disk_image: &str,
        iso_path: Option<&str>,
    ) -> (r: Result<(), VmError>)
        requires
            old(self).wf(),
        ensures
            final(self).wf(),
            has_vm(old(self).vms(), name@) ==> r == Err::<(), VmError>(VmError::AlreadyExists)
                && final(self).vms() == old(self).vms(),
            !has_vm(old(self).vms(), name@) ==> {
                &&& r is Ok
                &&& final(self).vms().len() == old(self).vms().len() + 1
                &&& final(self).vms().drop_last() == old(self).vms()
                &&& final(self).vms().last().name@ == name@
                &&& final(self).vms().last().ram == ram
                &&& final(self).vms().last().cpus == cpus
                &&& final(self).vms().last().disk_image@ == disk_image@
                &&& opt_view(final(self).vms().last().iso_path) == opt_str_view(iso_path)
                &&& final(self).vms().last().snapshots@.len() == 0
            },
    {
        if self.find(name).is_some() {
            return Err(VmError::AlreadyExists);
        }
        let iso = match iso_path {
            Some(p) => Some(p.to_owned()),
            None => None,
        };
        let vm = VM {
            name: name.to_owned(),
            ram,
            cpus,
            disk_image: disk_image.to_owned(),
            iso_path: iso,
            snapshots: Vec::new(),
        };
        let ghost pre = self.vms@;
        self.vms.push(vm);
        proof {
            let s = self.vms@;
            assert(s.drop_last() =~= pre);
            assert forall|i: int, j: int| 0 <= i < s.len() && 0 <= j < s.len() && i != j implies s[i].name@
                != s[j].name@ by {
                if i == pre.len() {
                    assert(s[j] == pre[j]);
                } else if j == pre.len() {
                    assert(s[i] == pre[i]);
                } else {
                    assert(s[i] == pre[i] && s[j] == pre[j]);
                }
            }
        }
        Ok(())
    }

    /// Changes the memory and processor count that are given; refused if no
    /// machine is called `name`.
    pub fn update_vm(&mut self, name: &str, ram: Option<usize>, cpus: Option<usize>) -> (r: Result<(), VmError>)
        requires
            old(self).wf(),
        ensures
            final(self).wf(),
            !has_vm(old(self).vms(), name@) ==> r == Err::<(), VmError>(VmError::NotFound)
                && final(self).vms() == old(self).vms(),
            has_vm(old(self).vms(), name@) ==> {
                let i = vm_pos(old(self).vms(), name@);
                let (pre, post) = (old(self).vms()[i], final(self).vms()[i]);
                &&& r is Ok
                &&& final(self).vms().len() == old(self).vms().len()
                &&& forall|j: int| 0 <= j < old(self).vms().len() && j != i ==> final(self).vms()[j]
                    == old(self).vms()[j]
                &&& post.name@ == pre.name@
                &&& post.ram == (if let Some(m) = ram { m } else { pre.ram })
                &&& post.cpus == (if let Some(c) = cpus { c } else { pre.cpus })
                &&& post.disk_image@ == pre.disk_image@
                &&& opt_view(post.iso_path) == opt_view(pre.iso_path)
                &&& post.snapshots@ == pre.snapshots@
            },
    {
        let i = match self.find(name) {
            Some(i) => i,
            None => {
                return Err(VmError::NotFound);
            },
        };
        let ghost pre = self.vms@;
        let mut vm = self.vms.remove(i);
        if let Some(m) = ram {
            vm.ram = m;
        }
        if let Some(c) = cpus {
            vm.cpus = c;
        }
        self.vms.insert(i, vm);
        proof {
            let s = self.vms@;
            assert forall|j: int| 0 <= j < pre.len() && j != i implies s[j] == pre[j] by {}
            assert forall|a: int, b: int| 0 <= a < s.len() && 0 <= b < s.len() && a != b implies s[a].name@
                != s[b].name@ by {
                assert(s[a].name@ == pre[a].name@);
                assert(s[b].name@ == pre[b].name@);
            }
        }
        Ok(())
    }

    /// Removes the machine called `name`; refused if there is none.
    pub fn delete_vm(&mut self, name: &str) -> (r: Result<(), VmError>)
        requires
            old(self).wf(),
        ensures
            final(self).wf(),
            !has_vm(old(self).vms(), name@) ==> r == Err::<(), VmError>(VmError::NotFound)
                && final(self).vms() == old(self).vms(),
            has_vm(old(self).vms(), name@) ==> r is Ok && final(self).vms() == old(self).vms().remove(
                vm_pos(old(self).vms(), name@),
            ),
    {
        match self.find(name) {
            Some(i) => {
                let ghost pre = self.vms@;
                self.vms.remove(i);
                proof {
                    let s = self.vms@;
                    assert(forall|j: int| 0 <= j < s.len() ==> #[trigger] s[j] == if j < i {
                        pre[j]
                    } else {
                        pre[j + 1]
                    });
                    assert forall|a: int, b: int|
                        0 <= a < s.len() && 0 <= b < s.len() && a != b implies s[a].name@
                        != s[b].name@ by {
                        let a2 = if a < i { a } else { a + 1 };
                        let b2 = if b < i { b } else { b + 1 };
                        assert(s[a] == pre[a2] && s[b] == pre[b2]);
                    }
                }
                Ok(())
            },
            None => Err(VmError::NotFound),
        }
    }

    /// Whether `vm` has a snapshot called `snapshot`.
    fn find_snapshot(vm: &VM, snapshot: &str) -> (r: bool)
        ensures
            r == has_snapshot(vm.snapshots@, snapshot@),
    {
        let key = snapshot.to_owned();
        let mut i: usize = 0;
        while i < vm.snapshots.len()
            invariant
                key@ == snapshot@,
                i <= vm.snapshots@.len(),
                forall|j: int| 0 <= j < i ==> vm.snapshots@[j].name@ != snapshot@,
            decreases vm.snapshots@.len() - i,
        {
            if vm.snapshots[i].name == key {
                assert(vm.snapshots@[i as int].name@ == snapshot@);
                return true;
            }
            i = i + 1;
        }
        false
    }

    /// Records a snapshot called `snapshot` of the machine called `name`;
    /// refused if there is no such machine or it has such a snapshot.
    pub fn snapshot_vm(&mut self, name: &str, snapshot: &str) -> (r: Result<(), VmError>)
        requires
            old(self).wf(),
        ensures
            final(self).wf(),
            !has_vm(old(self).vms(), name@) ==> r == Err::<(), VmError>(VmError::NotFound)
                && final(self).vms() == old(self).vms(),
            has_vm(old(self).vms(), name@) ==> {
                let i = vm_pos(old(self).vms(), name@);
                let (pre, post) = (old(self).vms()[i], final(self).vms()[i]);
                if has_snapshot(pre.snapshots@, snapshot@) {
                    r == Err::<(), VmError>(VmError::SnapshotExists) && final(self).vms() == old(
                        self,
                    ).vms()
                } else {
                    &&& r is Ok
                    &&& final(self).vms().len() == old(self).vms().len()
                    &&& forall|j: int|
                        0 <= j < old(self).vms().len() && j != i ==> final(self).vms()[j] == old(
                            self,
                        ).vms()[j]
                    &&& same_settings(post, pre)
                    &&& post.snapshots@.drop_last() == pre.snapshots@
                    &&& post.snapshots@.len() == pre.snapshots@.len() + 1
                    &&& post.snapshots@.last().name@ == snapshot@
                }
            },
    {
        let i = match self.find(name) {
            Some(i) => i,
            None => {
                return Err(VmError::NotFound);
            },
        };
        if Self::find_snapshot(&self.vms[i], snapshot) {
            return Err(VmError::SnapshotExists);
        }
        let ghost pre = self.vms@;
        let mut vm = self.vms.remove(i);
        let ghost before = vm.snapshots@;
        vm.snapshots.push(VMSnapshot { name: snapshot.to_owned() });
        assert(vm.snapshots@.drop_last() =~= before);
        self.vms.insert(i, vm);
        proof {
            let s = self.vms@;
            assert forall|j: int| 0 <= j < pre.len() && j != i implies s[j] == pre[j] by {}
            assert forall|a: int, b: int| 0 <= a < s.len() && 0 <= b < s.len() && a != b implies s[a].name@
                != s[b].name@ by {
                assert(s[a].name@ == pre[a].name@);
                assert(s[b].name@ == pre[b].name@);
            }
        }
        Ok(())
    }

    /// Checks that the machine called `name` has a snapshot called
    /// `snapshot` to restore.
    pub fn restore_vm(&self, name: &str, snapshot: &str) -> (r: Result<(), VmError>)
        requires
            self.wf(),
        ensures
            !has_vm(self.vms(), name@) ==> r == Err::<(), VmError>(VmError::NotFound),
            has_vm(self.vms(), name@) ==> if has_snapshot(
                self.vms()[vm_pos(self.vms(), name@)].snapshots@,
                snapshot@,
            ) {
                r is Ok
            } else {
                r == Err::<(), VmError>(VmError::SnapshotNotFound)
            },
    {
        match self.find(name) {
            Some(i) => {
                if Self::find_snapshot(&self.vms[i], snapshot) {
                    Ok(())
                } else {
                    Err(VmError::SnapshotNotFound)
                }
            },
            None => Err(VmError::NotFound),
        }
    }
}

} // verus!
