use aphelion::{cycle_integrator, Integrator};

#[test]
fn cycling_the_integrator_visits_every_scheme_and_returns() {
    let start = Integrator::default();
    let mut current = start;
    for _ in 0..Integrator::ALL.len() {
        current = cycle_integrator(current);
    }
    assert_eq!(current, start);
}

#[test]
fn cycling_follows_the_catalogue_order() {
    assert_eq!(cycle_integrator(Integrator::SemiImplicitEuler), Integrator::VelocityVerlet);
    assert_eq!(cycle_integrator(Integrator::VelocityVerlet), Integrator::Yoshida4);
    assert_eq!(cycle_integrator(Integrator::Yoshida4), Integrator::Rk4);
    assert_eq!(cycle_integrator(Integrator::Rk4), Integrator::SemiImplicitEuler);
    let mut seen = Vec::new();
    let mut current = Integrator::Yoshida4;
    for _ in 0..4 {
        assert!(!seen.contains(&current));
        seen.push(current);
        current = cycle_integrator(current);
    }
    assert_eq!(seen.len(), Integrator::ALL.len());
}

#[test]
fn the_default_is_velocity_verlet() {
    assert_eq!(Integrator::default(), Integrator::VelocityVerlet);
}

#[test]
fn the_catalogue_describes_each_scheme() {
    let expected = [
        (Integrator::SemiImplicitEuler, "Semi-implicit Euler", 1, true, 1),
        (Integrator::VelocityVerlet, "Velocity Verlet", 2, true, 2),
        (Integrator::Yoshida4, "Yoshida 4", 4, true, 6),
        (Integrator::Rk4, "Runge-Kutta 4", 4, false, 4),
    ];
    assert_eq!(Integrator::ALL.len(), expected.len());
    for (scheme, (integrator, name, order, symplectic, evaluations)) in Integrator::ALL.iter().zip(expected) {
        assert_eq!(*scheme, integrator);
        assert_eq!(integrator.name(), name);
        assert_eq!(integrator.order(), order);
        assert_eq!(integrator.is_symplectic(), symplectic);
        assert_eq!(integrator.force_evaluations(), evaluations);
    }
}
