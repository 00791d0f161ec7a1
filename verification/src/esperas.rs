//! O que as esperas, a limpeza e as sondas garantem.

use vstd::prelude::*;

use crate::decimal::digitos;
use crate::duracao::Duracao;
use crate::orquestrador::{
    comandos_de_limpeza, passo_da_espera, passo_dos_geradores, EsperaDaPorta, EventoDaEspera,
    EventoDosGeradores, PassoDaEsperaVisto, PassoDosGeradoresVisto,
};
use crate::podman::{hexadecimal, juntos, linhas_aparadas, porta_em_hexa, sonda};
use crate::texto::{aparado, ate, contem};
use crate::trechos::lemma_trecho;

verus! {

// ---- Esperas ----

/// Uma volta da espera por uma porta só falha se o tempo se esgotou ou a execução foi interrompida;
/// senão o container é checado.
pub proof fn lei_volta_da_espera(e: EsperaDaPorta, decorrido: Duracao, interrompida: bool)
    ensures
        ({
            let passo = passo_da_espera(e, EventoDaEspera::Volta { decorrido, interrompida });
            let esgotado = decorrido.total() >= e.limite.total();
            &&& passo is Falhar <==> esgotado || interrompida
            &&& passo is ChecarContainer <==> !esgotado && !interrompida
            &&& esgotado ==> (passo matches PassoDaEsperaVisto::Falhar(m) && contem(m, e.oque@)
                && contem(m, digitos(e.porta as nat)))
            &&& !esgotado && interrompida ==> passo == PassoDaEsperaVisto::Falhar(
                "execução interrompida pelo usuário"@,
            )
        }),
{
    let passo = passo_da_espera(e, EventoDaEspera::Volta { decorrido, interrompida });
    if decorrido.total() >= e.limite.total() {
        if let PassoDaEsperaVisto::Falhar(m) = passo {
            let i = "tempo esgotado esperando "@.len() as int;
            assert(m.subrange(i, i + e.oque@.len()) =~= e.oque@);
            let n = digitos(e.porta as nat);
            let j = i + e.oque@.len() + " (a porta "@.len();
            assert(m.subrange(j, j + n.len()) =~= n);
        }
    }
}

/// Só uma porta aberta encerra a espera com sucesso, e só um container que roda tem a porta sondada;
/// o que morreu é citado na falha.
pub proof fn lei_sondas_da_espera(e: EsperaDaPorta, sim: bool)
    ensures
        passo_da_espera(e, EventoDaEspera::Escutando(sim)) is Pronto <==> sim,
        passo_da_espera(e, EventoDaEspera::Escutando(sim)) is Dormir <==> !sim,
        passo_da_espera(e, EventoDaEspera::Rodando(sim)) is ChecarPorta <==> sim,
        !sim ==> (passo_da_espera(e, EventoDaEspera::Rodando(sim)) matches PassoDaEsperaVisto::Falhar(
            m,
        ) && contem(m, e.container@) && contem(m, digitos(e.porta as nat))),
{
    if let PassoDaEsperaVisto::Falhar(m) = passo_da_espera(e, EventoDaEspera::Rodando(sim)) {
        let c = e.container@;
        let i = "o container "@.len() as int;
        assert(m.subrange(i, i + c.len()) =~= c);
        let n = digitos(e.porta as nat);
        let j = m.len() - n.len();
        assert(m.subrange(j, j + n.len()) =~= n);
    }
}

/// A espera pelos geradores termina se e somente se nenhum roda; com algum rodando só falha depois do
/// limite, dizendo quantos são.
pub proof fn lei_espera_dos_geradores(limite: Duracao, quantos: usize, decorrido: Duracao)
    ensures
        ({
            let passo = passo_dos_geradores(
                limite,
                EventoDosGeradores::Ativos { quantos, decorrido },
            );
            &&& passo is Concluidos <==> quantos == 0
            &&& passo is Falhar <==> quantos > 0 && decorrido.total() > limite.total()
            &&& passo is Dormir <==> quantos > 0 && decorrido.total() <= limite.total()
            &&& passo matches PassoDosGeradoresVisto::Falhar(m) ==> contem(
                m,
                digitos(quantos as nat),
            )
        }),
        passo_dos_geradores(limite, EventoDosGeradores::Volta { interrompida: true })
            == PassoDosGeradoresVisto::Falhar("execução interrompida pelo usuário"@),
        passo_dos_geradores(limite, EventoDosGeradores::Volta { interrompida: false }) is Contar,
{
    let passo = passo_dos_geradores(limite, EventoDosGeradores::Ativos { quantos, decorrido });
    if let PassoDosGeradoresVisto::Falhar(m) = passo {
        let n = digitos(quantos as nat);
        let i = "tempo esgotado: "@.len() as int;
        assert(m.subrange(i, i + n.len()) =~= n);
    }
}

// ---- Limpeza ----

/// A limpeza remove cada container, um por comando e na ordem, e por último a rede, se e somente se
/// ela existe e deve sair.
pub proof fn lei_limpeza(nomes: Seq<Seq<char>>, remover_rede: bool, rede_existe: bool)
    ensures
        ({
            let cs = comandos_de_limpeza(nomes, remover_rede, rede_existe);
            &&& forall|i: int|
                0 <= i < nomes.len() ==> #[trigger] cs[i] == seq!["rm"@, "-f"@, nomes[i]]
            &&& cs.len() == nomes.len() + if remover_rede && rede_existe {
                1int
            } else {
                0int
            }
            &&& remover_rede && rede_existe ==> cs.last() == seq![
                "network"@,
                "rm"@,
                "-f"@,
                "hugesyslogs-rede"@,
            ]
        }),
{
}

/// Uma linha da resposta: sem nada além de espaços não dá nome; senão dá um, aparado. E os nomes de
/// várias linhas são os de cada uma, na ordem.
pub proof fn lei_linhas_aparadas(linha: Seq<char>, resto: Seq<char>)
    requires
        !linha.contains('\n'),
    ensures
        aparado(linha).len() == 0 ==> linhas_aparadas(linha) == Seq::<Seq<char>>::empty(),
        aparado(linha).len() > 0 ==> linhas_aparadas(linha) == seq![aparado(linha)],
        linhas_aparadas(linha + seq!['\n'] + resto) == linhas_aparadas(linha) + linhas_aparadas(
            resto,
        ),
{
    let s = linha + seq!['\n'] + resto;
    lemma_ate_a_quebra(linha, Seq::empty());
    assert(linha + Seq::<char>::empty() =~= linha);
    assert(linha.take(linha.len() as int) =~= linha);
    lemma_ate_a_quebra(linha, seq!['\n'] + resto);
    assert(s =~= linha + (seq!['\n'] + resto));
    assert(s.take(linha.len() as int) =~= linha);
    assert(s.skip(linha.len() as int + 1) =~= resto);
}

proof fn lemma_ate_a_quebra(linha: Seq<char>, resto: Seq<char>)
    requires
        !linha.contains('\n'),
        resto.len() == 0 || resto[0] == '\n',
    ensures
        ate(linha + resto, '\n') == linha.len(),
    decreases linha.len(),
{
    if linha.len() > 0 {
        assert(linha.contains(linha[0]));
        let cauda = linha.skip(1);
        assert forall|i: int| 0 <= i < cauda.len() implies cauda[i] != '\n' by {
            assert(linha.contains(linha[i + 1]));
        }
        lemma_ate_a_quebra(cauda, resto);
        assert((linha + resto).skip(1) =~= cauda + resto);
    } else {
        assert(linha + resto =~= resto);
    }
}

/// Os argumentos aparecem na mensagem de falha separados por um espaço, na ordem.
pub proof fn lei_juntos(a: Seq<Seq<char>>, b: Seq<Seq<char>>)
    requires
        a.len() > 0,
        b.len() > 0,
    ensures
        juntos(a + b) == juntos(a) + " "@ + juntos(b),
        a.len() == 1 ==> juntos(a) == a[0],
    decreases b.len(),
{
    let s = a + b;
    assert(s.drop_last() =~= a + b.drop_last());
    assert(s.last() == b.last());
    if b.len() == 1 {
        assert(s.drop_last() =~= a);
    } else {
        lei_juntos(a, b.drop_last());
        assert(juntos(s) =~= juntos(a) + " "@ + juntos(b));
    }
}

// ---- Sondas ----

/// O valor de um algarismo hexadecimal maiúsculo.
pub open spec fn valor_hexadecimal(c: char) -> int {
    if '0' <= c <= '9' {
        c as int - '0' as int
    } else {
        10 + c as int - 'A' as int
    }
}

proof fn lemma_algarismo(d: nat)
    requires
        d < 16,
    ensures
        valor_hexadecimal(hexadecimal(d)) == d,
        ('0' <= hexadecimal(d) <= '9') || ('A' <= hexadecimal(d) <= 'F'),
{
}

proof fn lemma_quatro_algarismos(p: nat)
    requires
        p < 65536,
    ensures
        p / 4096 < 16,
        p / 256 % 16 < 16,
        p / 16 % 16 < 16,
        p % 16 < 16,
        p == 4096 * (p / 4096) + 256 * (p / 256 % 16) + 16 * (p / 16 % 16) + p % 16,
{
    let a = p / 16;
    let b = p / 256;
    let c = p / 4096;
    assert(p == 16 * a + p % 16);
    assert(b == a / 16 && c == b / 16);
    assert(a == 16 * b + a % 16);
    assert(b == 16 * c + b % 16);
}

/// A porta volta dos quatro algarismos hexadecimais da sonda, do mais alto ao mais baixo.
pub proof fn lei_porta_em_hexa(porta: u16)
    ensures
        ({
            let h = porta_em_hexa(porta);
            &&& h.len() == 4
            &&& forall|i: int|
                0 <= i < 4 ==> ('0' <= #[trigger] h[i] <= '9') || ('A' <= h[i] <= 'F')
            &&& porta == 4096 * valor_hexadecimal(h[0]) + 256 * valor_hexadecimal(h[1]) + 16
                * valor_hexadecimal(h[2]) + valor_hexadecimal(h[3])
        }),
{
    let p = porta as nat;
    lemma_quatro_algarismos(p);
    lemma_algarismo(p / 4096);
    lemma_algarismo(p / 256 % 16);
    lemma_algarismo(p / 16 % 16);
    lemma_algarismo(p % 16);
}

/// A sonda procura a porta pedida nas tabelas do protocolo pedido, e em TCP só as que escutam; portas
/// diferentes têm sondas diferentes.
pub proof fn lei_sonda(porta: u16, outra: u16, udp: bool)
    ensures
        contem(sonda(porta, udp), ":"@ + porta_em_hexa(porta) + " "@),
        contem(sonda(porta, true), " /proc/net/udp /proc/net/udp6 "@),
        contem(sonda(porta, false), " /proc/net/tcp /proc/net/tcp6 "@),
        contem(sonda(porta, false), ":0000 0A'"@),
        sonda(porta, udp) == sonda(outra, udp) ==> porta == outra,
{
    reveal_strlit("grep -qi ':");
    reveal_strlit(":");
    reveal_strlit(" ");
    reveal_strlit(" ' /proc/net/udp /proc/net/udp6 2>/dev/null");
    reveal_strlit(" [0-9A-F]*:0000 0A' /proc/net/tcp /proc/net/tcp6 2>/dev/null");
    reveal_strlit(" /proc/net/udp /proc/net/udp6 ");
    reveal_strlit(" /proc/net/tcp /proc/net/tcp6 ");
    reveal_strlit(":0000 0A'");
    lei_porta_em_hexa(porta);
    lei_porta_em_hexa(outra);
    let s = sonda(porta, udp);
    let h = porta_em_hexa(porta);
    assert(s.subrange(10, 16) =~= ":"@ + h + " "@);
    lemma_trecho(s, ":"@ + h + " "@, 10, 16);
    let u = sonda(porta, true);
    let t = sonda(porta, false);
    let f = " ' /proc/net/udp /proc/net/udp6 2>/dev/null"@;
    let g = " [0-9A-F]*:0000 0A' /proc/net/tcp /proc/net/tcp6 2>/dev/null"@;
    assert(u.skip(15) =~= f);
    assert(t.skip(15) =~= g);
    assert(f.subrange(2, 32) =~= " /proc/net/udp /proc/net/udp6 "@);
    assert(u.subrange(17, 47) =~= f.subrange(2, 32));
    lemma_trecho(u, " /proc/net/udp /proc/net/udp6 "@, 17, 47);
    assert(g.subrange(19, 49) =~= " /proc/net/tcp /proc/net/tcp6 "@);
    assert(t.subrange(34, 64) =~= g.subrange(19, 49));
    lemma_trecho(t, " /proc/net/tcp /proc/net/tcp6 "@, 34, 64);
    assert(g.subrange(10, 19) =~= ":0000 0A'"@);
    assert(t.subrange(25, 34) =~= g.subrange(10, 19));
    lemma_trecho(t, ":0000 0A'"@, 25, 34);
    if s == sonda(outra, udp) {
        let k = porta_em_hexa(outra);
        assert(s.subrange(11, 15) =~= h);
        assert(sonda(outra, udp).subrange(11, 15) =~= k);
    }
}

} // verus!
